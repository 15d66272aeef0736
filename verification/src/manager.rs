//! The protocol plugin manager: it takes in plugins as app-side loading
//! discovers them, orders them by priority (stable, so discovery order
//! breaks ties), routes every packet through the default handler and
//! then every plugin in order, and tears everything down exactly once —
//! every plugin unloaded before any native handle is released.
//!
//! Opening a module file and resolving its entry symbol is native-code
//! work the manager cannot do itself; the loading loop performs it and
//! hands the manager a [`ModuleLoadOutcome`] per module, so the
//! decisions — error wording, the handle kept per outcome, hook order,
//! list bookkeeping — all stand here, verified.

use core::marker::PhantomData;

use vstd::multiset::Multiset;
use vstd::prelude::*;
use vstd::seq_lib::lemma_multiset_commutative;

use crate::buffer::PacketBuffer;
use crate::errors::ErrorKind;
use crate::plugin::FalconPlugin;

verus! {

broadcast use vstd::seq_lib::group_to_multiset_ensures;

/// Where the manager stands in its lifecycle. `Unloaded` is final: a
/// torn-down manager is reconstructed, never reloaded.
#[derive(Clone, Copy, Debug, PartialEq, Eq, Structural)]
pub enum ManagerState {
    /// Accepting plugins; dispatch not yet allowed.
    Loading,
    /// Plugin list sorted and frozen; dispatching.
    Ready,
    /// Torn down.
    Unloaded,
}

/// What came of opening one module file and resolving its entry point —
/// the two native steps app-side loading performs before handing the
/// manager the result. `L` is the native handle backing the module's
/// code, `P` the plugin the entry point produced.
pub enum ModuleLoadOutcome<L, P> {
    /// The file could not be opened as a loadable module.
    NotALibrary,
    /// The module opened — here is its handle — but the entry symbol was
    /// missing.
    MissingEntry(L),
    /// The module opened and its entry point produced a plugin.
    Loaded(L, P),
}

/// Folds a sequence of handler verdicts into the dispatch result: the
/// first failure wins and nothing after it is reached; otherwise the
/// aggregate is *handled* exactly when some verdict (or the running
/// `found` flag) was *handled*.
pub open spec fn spec_chain(vs: Seq<Result<Option<()>, ErrorKind>>, found: bool) -> Result<
    Option<()>,
    ErrorKind,
>
    decreases vs.len(),
{
    if vs.len() == 0 {
        if found {
            Ok(Some(()))
        } else {
            Ok(None)
        }
    } else {
        match vs[0] {
            Err(e) => Err(e),
            Ok(o) => spec_chain(vs.drop_first(), found || o is Some),
        }
    }
}

/// Inserts `x` immediately before the first element whose priority
/// exceeds `x`'s: after everything of equal or lower priority, so a run
/// of such insertions sorts stably.
pub open spec fn spec_insert_by_priority<P>(s: Seq<(i32, P)>, x: (i32, P)) -> Seq<(i32, P)>
    decreases s.len(),
{
    if s.len() == 0 {
        seq![x]
    } else if s[0].0 <= x.0 {
        seq![s[0]] + spec_insert_by_priority(s.drop_first(), x)
    } else {
        seq![x] + s
    }
}

/// The stable sort of `s` by ascending priority: each element in turn
/// inserted after its equals, so ties keep their discovery order.
pub open spec fn spec_stable_sort<P>(s: Seq<(i32, P)>) -> Seq<(i32, P)>
    decreases s.len(),
{
    if s.len() == 0 {
        Seq::empty()
    } else {
        spec_insert_by_priority(spec_stable_sort(s.drop_last()), s.last())
    }
}

/// Ascending by priority.
pub open spec fn sorted_by_priority<P>(s: Seq<(i32, P)>) -> bool {
    forall|i: int, j: int| 0 <= i <= j < s.len() ==> (#[trigger] s[i]).0 <= (#[trigger] s[j]).0
}

/// `spec_insert_by_priority` puts `x` exactly at the first index whose
/// priority exceeds `x`'s, and moves nothing else.
proof fn lemma_spec_insert_at<P>(s: Seq<(i32, P)>, x: (i32, P), j: int)
    requires
        0 <= j <= s.len(),
        forall|k: int| 0 <= k < j ==> (#[trigger] s[k]).0 <= x.0,
        j < s.len() ==> s[j].0 > x.0,
    ensures
        spec_insert_by_priority(s, x) == s.subrange(0, j) + seq![x] + s.subrange(
            j,
            s.len() as int,
        ),
    decreases s.len(),
{
    if j == 0 {
        if s.len() == 0 {
            assert(spec_insert_by_priority(s, x) =~= s.subrange(0, 0) + seq![x] + s.subrange(
                0,
                s.len() as int,
            ));
        } else {
            assert(s[0].0 > x.0);
            assert(spec_insert_by_priority(s, x) =~= s.subrange(0, 0) + seq![x] + s.subrange(
                0,
                s.len() as int,
            ));
        }
    } else {
        assert(s[0].0 <= x.0);
        let t = s.drop_first();
        assert(forall|k: int| 0 <= k < j - 1 ==> (#[trigger] t[k]).0 <= x.0) by {
            assert(forall|k: int| 0 <= k < j - 1 ==> t[k] == s[k + 1]);
        }
        lemma_spec_insert_at(t, x, j - 1);
        assert(seq![s[0]] + (t.subrange(0, j - 1) + seq![x] + t.subrange(j - 1, t.len() as int))
            =~= s.subrange(0, j) + seq![x] + s.subrange(j, s.len() as int));
    }
}

/// Inserting preserves sortedness.
proof fn lemma_insert_sorted<P>(s: Seq<(i32, P)>, x: (i32, P))
    requires
        sorted_by_priority(s),
    ensures
        sorted_by_priority(spec_insert_by_priority(s, x)),
    decreases s.len(),
{
    if s.len() > 0 && s[0].0 <= x.0 {
        lemma_insert_sorted(s.drop_first(), x);
        let r = seq![s[0]] + spec_insert_by_priority(s.drop_first(), x);
        lemma_insert_multiset(s.drop_first(), x);
        assert forall|i: int, j: int| 0 <= i <= j < r.len() implies (#[trigger] r[i]).0
            <= (#[trigger] r[j]).0 by {
            if i == 0 && j > 0 {
                let y = spec_insert_by_priority(s.drop_first(), x)[j - 1];
                assert(spec_insert_by_priority(s.drop_first(), x).to_multiset().contains(y));
                if y == x {
                } else {
                    assert(s.drop_first().contains(y));
                }
            }
        }
    }
}

/// Inserting grows the sequence by one.
proof fn lemma_insert_len<P>(s: Seq<(i32, P)>, x: (i32, P))
    ensures
        spec_insert_by_priority(s, x).len() == s.len() + 1,
    decreases s.len(),
{
    if s.len() > 0 && s[0].0 <= x.0 {
        lemma_insert_len(s.drop_first(), x);
    }
}

/// Inserting adds exactly `x` to the contents.
proof fn lemma_insert_multiset<P>(s: Seq<(i32, P)>, x: (i32, P))
    ensures
        spec_insert_by_priority(s, x).to_multiset() == s.to_multiset().insert(x),
    decreases s.len(),
{
    if s.len() == 0 {
        assert(seq![x] =~= Seq::<(i32, P)>::empty().push(x));
        assert(Seq::<(i32, P)>::empty().push(x).to_multiset() == Seq::<(
            i32,
            P,
        )>::empty().to_multiset().insert(x));
        assert(spec_insert_by_priority(s, x).to_multiset() =~= s.to_multiset().insert(x));
    } else if s[0].0 <= x.0 {
        lemma_insert_multiset(s.drop_first(), x);
        lemma_multiset_commutative(seq![s[0]], spec_insert_by_priority(s.drop_first(), x));
        lemma_multiset_commutative(seq![s[0]], s.drop_first());
        assert(seq![s[0]] + s.drop_first() =~= s);
        assert(seq![s[0]].to_multiset() =~= Multiset::<(i32, P)>::empty().insert(s[0])) by {
            assert(seq![s[0]] =~= Seq::<(i32, P)>::empty().push(s[0]));
        }
        assert(spec_insert_by_priority(s, x).to_multiset() =~= s.to_multiset().insert(x));
    } else {
        lemma_multiset_commutative(seq![x], s);
        assert(seq![x].to_multiset() =~= Multiset::<(i32, P)>::empty().insert(x)) by {
            assert(seq![x] =~= Seq::<(i32, P)>::empty().push(x));
        }
        assert(spec_insert_by_priority(s, x).to_multiset() =~= s.to_multiset().insert(x));
    }
}

/// The law of the load ordering: the stable sort leaves the plugin list
/// ascending by priority and holds exactly the plugins that went in —
/// a permutation, with ties kept in discovery order by construction of
/// [`spec_stable_sort`].
pub proof fn lemma_stable_sort_properties<P>(s: Seq<(i32, P)>)
    ensures
        sorted_by_priority(spec_stable_sort(s)),
        spec_stable_sort(s).to_multiset() == s.to_multiset(),
        spec_stable_sort(s).len() == s.len(),
    decreases s.len(),
{
    if s.len() == 0 {
    } else {
        lemma_stable_sort_properties(s.drop_last());
        lemma_insert_sorted(spec_stable_sort(s.drop_last()), s.last());
        lemma_insert_multiset(spec_stable_sort(s.drop_last()), s.last());
        lemma_insert_len(spec_stable_sort(s.drop_last()), s.last());
        assert(s.drop_last().push(s.last()) =~= s);
        assert(s.drop_last().push(s.last()).to_multiset() == s.drop_last().to_multiset().insert(
            s.last(),
        ));
    }
}

/// Inserts `x` into `v` right before the first element whose priority
/// exceeds `x`'s.
fn insert_by_priority<P>(v: &mut Vec<(i32, P)>, x: (i32, P))
    ensures
        final(v)@ == spec_insert_by_priority(old(v)@, x),
{
    let x_pri = x.0;
    let mut j: usize = 0;
    while j < v.len() && v[j].0 <= x_pri
        invariant
            j <= v@.len(),
            v@ == old(v)@,
            forall|k: int| 0 <= k < j ==> (#[trigger] v@[k]).0 <= x_pri,
        decreases v@.len() - j,
    {
        j = j + 1;
    }
    proof {
        lemma_spec_insert_at(v@, x, j as int);
    }
    v.insert(j, x);
    proof {
        assert(v@ =~= old(v)@.subrange(0, j as int) + seq![x] + old(v)@.subrange(
            j as int,
            old(v)@.len() as int,
        ));
    }
}

/// The protocol plugin manager. `P` is the handler type — the default
/// protocol and the plugins — `L` the native handle backing a loaded
/// module, and `C` the opaque per-connection state handlers act on.
pub struct ProtocolPluginManager<P, L, C> {
    default_protocol: P,
    plugins: Vec<(i32, P)>,
    loaded_libraries: Vec<L>,
    state: ManagerState,
    _connection: PhantomData<C>,
}

impl<P: FalconPlugin<C>, L, C> ProtocolPluginManager<P, L, C> {
    /// The default handler, consulted first on every packet.
    pub closed spec fn default_spec(&self) -> P {
        self.default_protocol
    }

    /// The plugin list: (priority, plugin) pairs in dispatch order.
    pub closed spec fn plugins_spec(&self) -> Seq<(i32, P)> {
        self.plugins@
    }

    /// The native handles, in registration order.
    pub closed spec fn libraries_spec(&self) -> Seq<L> {
        self.loaded_libraries@
    }

    /// Where the manager stands in its lifecycle.
    pub closed spec fn state_spec(&self) -> ManagerState {
        self.state
    }

    /// Every listed plugin is loaded and filed under its own priority.
    pub open spec fn wf(&self) -> bool {
        forall|i: int|
            0 <= i < self.plugins_spec().len() ==> (#[trigger] self.plugins_spec()[i]).1.spec_loaded()
                && self.plugins_spec()[i].0 == self.plugins_spec()[i].1.spec_priority()
    }

    /// The verdicts a packet id would draw, chain order: the default
    /// handler first, then every plugin in list order.
    pub open spec fn spec_verdicts(&self, packet_id: i32) -> Seq<Result<Option<()>, ErrorKind>> {
        seq![self.default_spec().spec_process(packet_id)] + self.plugins_spec().map_values(
            |pr: (i32, P)| pr.1.spec_process(packet_id),
        )
    }

    /// What dispatching a packet id returns.
    pub open spec fn spec_dispatch(&self, packet_id: i32) -> Result<Option<()>, ErrorKind> {
        spec_chain(self.spec_verdicts(packet_id), false)
    }

    /// A fresh manager around the given default handler: no plugins, no
    /// native handles, accepting loads.
    pub fn new(default_protocol: P) -> (r: Self)
        ensures
            r.wf(),
            r.default_spec() == default_protocol,
            r.plugins_spec() == Seq::<(i32, P)>::empty(),
            r.libraries_spec() == Seq::<L>::empty(),
            r.state_spec() == ManagerState::Loading,
    {
        let r = ProtocolPluginManager {
            default_protocol,
            plugins: Vec::new(),
            loaded_libraries: Vec::new(),
            state: ManagerState::Loading,
            _connection: PhantomData,
        };
        proof {
            assert(r.plugins_spec() =~= Seq::<(i32, P)>::empty());
            assert(r.libraries_spec() =~= Seq::<L>::empty());
        }
        r
    }

    /// Registers what opening the module at `path` yielded. A file that
    /// is no module fails without a trace; a module without the entry
    /// symbol fails but its handle stays registered for the process
    /// lifetime; a loaded plugin has its load hook run once and joins
    /// the list under its own priority.
    pub fn load_plugin(&mut self, path: String, outcome: ModuleLoadOutcome<L, P>) -> (r: Result<
        (),
        ErrorKind,
    >)
        requires
            old(self).wf(),
            old(self).state_spec() == ManagerState::Loading,
            outcome matches ModuleLoadOutcome::Loaded(l, p) ==> !p.spec_loaded(),
        ensures
            final(self).wf(),
            final(self).state_spec() == ManagerState::Loading,
            final(self).default_spec() == old(self).default_spec(),
            (match outcome {
                ModuleLoadOutcome::NotALibrary => {
                    &&& r matches Err(ErrorKind::LibraryLoadingError(p, m))
                    &&& p@ == path@
                    &&& m@ == "not recognized as plugin library"@
                    &&& *final(self) == *old(self)
                },
                ModuleLoadOutcome::MissingEntry(l) => {
                    &&& r matches Err(ErrorKind::LibraryLoadingError(p, m))
                    &&& p@ == path@
                    &&& m@ == "entry symbol not found"@
                    &&& final(self).plugins_spec() == old(self).plugins_spec()
                    &&& final(self).libraries_spec() == old(self).libraries_spec().push(l)
                },
                ModuleLoadOutcome::Loaded(l, q) => {
                    &&& r matches Ok(())
                    &&& final(self).libraries_spec() == old(self).libraries_spec().push(l)
                    &&& final(self).plugins_spec().len() == old(self).plugins_spec().len() + 1
                    &&& final(self).plugins_spec().subrange(
                        0,
                        old(self).plugins_spec().len() as int,
                    ) == old(self).plugins_spec()
                    &&& final(self).plugins_spec().last().0 == q.spec_priority()
                    &&& final(self).plugins_spec().last().1.spec_priority() == q.spec_priority()
                    &&& final(self).plugins_spec().last().1.spec_name() == q.spec_name()
                    &&& forall|id: i32|
                        final(self).plugins_spec().last().1.spec_process(id) == q.spec_process(id)
                },
            }),
    {
        match outcome {
            ModuleLoadOutcome::NotALibrary => {
                Err(
                    ErrorKind::LibraryLoadingError(
                        path,
                        "not recognized as plugin library".to_owned(),
                    ),
                )
            },
            ModuleLoadOutcome::MissingEntry(lib) => {
                self.loaded_libraries.push(lib);
                Err(ErrorKind::LibraryLoadingError(path, "entry symbol not found".to_owned()))
            },
            ModuleLoadOutcome::Loaded(lib, plugin) => {
                self.loaded_libraries.push(lib);
                let mut plugin = plugin;
                plugin.on_protocol_load();
                let priority = plugin.get_priority();
                self.plugins.push((priority, plugin));
                proof {
                    assert(self.plugins_spec().subrange(0, old(self).plugins_spec().len() as int)
                        =~= old(self).plugins_spec());
                    assert forall|i: int|
                        0 <= i < self.plugins_spec().len() implies (
                    #[trigger] self.plugins_spec()[i]).1.spec_loaded() && self.plugins_spec()[i].0
                        == self.plugins_spec()[i].1.spec_priority() by {
                        if i < old(self).plugins_spec().len() {
                            assert(self.plugins_spec()[i] == old(self).plugins_spec()[i]);
                            assert((#[trigger] old(self).plugins_spec()[i]).1.spec_loaded() && old(
                                self,
                            ).plugins_spec()[i].0 == old(
                                self,
                            ).plugins_spec()[i].1.spec_priority());
                        }
                    }
                }
                Ok(())
            },
        }
    }

    /// Freezes loading: sorts the plugin list ascending by priority —
    /// stably, so plugins of equal priority keep their discovery order —
    /// and opens dispatch.
    pub fn finish_loading(&mut self)
        requires
            old(self).wf(),
            old(self).state_spec() == ManagerState::Loading,
        ensures
            final(self).wf(),
            final(self).state_spec() == ManagerState::Ready,
            final(self).default_spec() == old(self).default_spec(),
            final(self).libraries_spec() == old(self).libraries_spec(),
            final(self).plugins_spec() == spec_stable_sort(old(self).plugins_spec()),
            sorted_by_priority(final(self).plugins_spec()),
    {
        let ghost orig = self.plugins@;
        let mut sorted_list: Vec<(i32, P)> = Vec::new();
        proof {
            assert(orig.subrange(0, 0) =~= Seq::<(i32, P)>::empty());
            assert(orig.subrange(0, orig.len() as int) =~= orig);
            assert(sorted_list@ =~= spec_stable_sort(orig.subrange(0, 0)));
        }
        let ghost mut k: int = 0;
        while self.plugins.len() > 0
            invariant
                0 <= k <= orig.len(),
                self.plugins@ =~= orig.subrange(k, orig.len() as int),
                sorted_list@ == spec_stable_sort(orig.subrange(0, k)),
                self.default_spec() == old(self).default_spec(),
                self.libraries_spec() == old(self).libraries_spec(),
                self.state_spec() == old(self).state_spec(),
            decreases self.plugins@.len(),
        {
            let x = self.plugins.remove(0);
            proof {
                assert(x == orig[k]);
                assert(self.plugins@ =~= orig.subrange(k + 1, orig.len() as int));
            }
            insert_by_priority(&mut sorted_list, x);
            proof {
                let upto = orig.subrange(0, k + 1);
                assert(upto.drop_last() =~= orig.subrange(0, k));
                assert(upto.last() == orig[k]);
                k = k + 1;
            }
        }
        proof {
            assert(orig.subrange(0, k) =~= orig);
        }
        self.plugins = sorted_list;
        self.state = ManagerState::Ready;
        proof {
            lemma_stable_sort_properties(orig);
            assert forall|i: int| 0 <= i < self.plugins_spec().len() implies (
            #[trigger] self.plugins_spec()[i]).1.spec_loaded() && self.plugins_spec()[i].0
                == self.plugins_spec()[i].1.spec_priority() by {
                let y = self.plugins_spec()[i];
                assert(self.plugins_spec().contains(y));
                assert(self.plugins_spec().to_multiset().count(y) > 0);
                assert(orig.to_multiset().count(y) > 0);
                assert(orig.contains(y));
                let j = choose|j: int| 0 <= j < orig.len() && orig[j] == y;
                assert(old(self).plugins_spec()[j] == y);
                assert(orig[j].1.spec_loaded() && orig[j].0 == orig[j].1.spec_priority());
            }
        }
    }

    /// Dispatches one packet: the default handler first, then every
    /// plugin in list order, every handler seeing every packet — unless
    /// one fails, which stops the chain and surfaces that failure. The
    /// aggregate is *handled* when any handler said so. Dispatch reads
    /// the manager and never changes it.
    pub fn process_packet(&self, packet_id: i32, buffer: &mut PacketBuffer, connection: &mut C) -> (r:
        Result<Option<()>, ErrorKind>)
        requires
            self.wf(),
            self.state_spec() == ManagerState::Ready,
            old(buffer).wf(),
        ensures
            final(buffer).wf(),
            r == self.spec_dispatch(packet_id),
    {
        let ghost vs = self.spec_verdicts(packet_id);
        let mut found = false;
        proof {
            assert(vs[0] == self.default_spec().spec_process(packet_id));
        }
        match self.default_protocol.process_packet(packet_id, buffer, connection) {
            Ok(Some(_)) => {
                found = true;
            },
            Ok(None) => {},
            Err(e) => {
                proof {
                    assert(spec_chain(vs, false) == Err::<Option<()>, ErrorKind>(e));
                }
                return Err(e);
            },
        }
        proof {
            assert(vs.drop_first() =~= vs.skip(1));
            assert(spec_chain(vs, false) == spec_chain(vs.skip(1), found));
        }
        let mut idx: usize = 0;
        while idx < self.plugins.len()
            invariant
                self.wf(),
                buffer.wf(),
                vs == self.spec_verdicts(packet_id),
                0 <= idx <= self.plugins_spec().len(),
                vs.len() == 1 + self.plugins_spec().len(),
                spec_chain(vs, false) == spec_chain(vs.skip(1 + idx), found),
            decreases self.plugins@.len() - idx,
        {
            proof {
                assert(vs[1 + idx] == self.plugins_spec()[idx as int].1.spec_process(packet_id));
                assert(vs.skip(1 + idx)[0] == vs[1 + idx]);
                assert(vs.skip(1 + idx).drop_first() =~= vs.skip(2 + idx));
            }
            match self.plugins[idx].1.process_packet(packet_id, buffer, connection) {
                Ok(Some(_)) => {
                    found = true;
                },
                Ok(None) => {},
                Err(e) => {
                    return Err(e);
                },
            }
            idx = idx + 1;
        }
        proof {
            assert(vs.skip(1 + idx) =~= Seq::<Result<Option<()>, ErrorKind>>::empty());
        }
        if found {
            Ok(Some(()))
        } else {
            Ok(None)
        }
    }

    /// Tears the manager down, idempotently: runs the unload hook of
    /// every plugin in list order and clears the list, then releases
    /// every native handle in registration order. Once both lists are
    /// empty a further call finds nothing to do — no hook runs twice and
    /// no handle is released twice.
    pub fn unload(&mut self)
        requires
            old(self).wf(),
        ensures
            final(self).wf(),
            final(self).default_spec() == old(self).default_spec(),
            final(self).plugins_spec() == Seq::<(i32, P)>::empty(),
            final(self).libraries_spec() == Seq::<L>::empty(),
            final(self).state_spec() == ManagerState::Unloaded,
    {
        while self.plugins.len() > 0
            invariant
                self.wf(),
                self.default_spec() == old(self).default_spec(),
                self.libraries_spec() == old(self).libraries_spec(),
                self.state_spec() == old(self).state_spec(),
            decreases self.plugins@.len(),
        {
            let ghost before = self.plugins@;
            proof {
                assert(before =~= self.plugins_spec());
                assert forall|i: int|
                    0 <= i < before.len() implies (#[trigger] before[i]).1.spec_loaded()
                    && before[i].0 == before[i].1.spec_priority() by {
                    assert(self.plugins_spec()[i] == before[i]);
                    assert((#[trigger] self.plugins_spec()[i]).1.spec_loaded()
                        && self.plugins_spec()[i].0 == self.plugins_spec()[i].1.spec_priority());
                }
            }
            let pair = self.plugins.remove(0);
            proof {
                assert(pair == before[0]);
                assert(self.plugins@ =~= before.drop_first());
                assert forall|i: int|
                    0 <= i < self.plugins_spec().len() implies (
                #[trigger] self.plugins_spec()[i]).1.spec_loaded() && self.plugins_spec()[i].0
                    == self.plugins_spec()[i].1.spec_priority() by {
                    assert(self.plugins_spec()[i] == before[i + 1]);
                    assert(before[i + 1].1.spec_loaded() && before[i + 1].0 == before[
                        i + 1
                    ].1.spec_priority());
                }
            }
            let mut plugin = pair.1;
            plugin.on_protocol_unload();
        }
        while self.loaded_libraries.len() > 0
            invariant
                self.wf(),
                self.default_spec() == old(self).default_spec(),
                self.plugins_spec().len() == 0,
            decreases self.loaded_libraries@.len(),
        {
            let _lib = self.loaded_libraries.remove(0);
        }
        self.state = ManagerState::Unloaded;
        proof {
            assert(self.plugins_spec() =~= Seq::<(i32, P)>::empty());
            assert(self.libraries_spec() =~= Seq::<L>::empty());
        }
    }

    /// How many plugins are listed.
    pub fn plugin_count(&self) -> (r: usize)
        ensures
            r == self.plugins_spec().len(),
    {
        self.plugins.len()
    }

    /// How many native handles are registered.
    pub fn library_count(&self) -> (r: usize)
        ensures
            r == self.libraries_spec().len(),
    {
        self.loaded_libraries.len()
    }

    /// Whether the manager is dispatching.
    pub fn is_ready(&self) -> (r: bool)
        ensures
            r == (self.state_spec() == ManagerState::Ready),
    {
        match self.state {
            ManagerState::Ready => true,
            _ => false,
        }
    }

    /// The listed priorities, in dispatch order.
    pub fn plugin_priorities(&self) -> (r: Vec<i32>)
        ensures
            r@.len() == self.plugins_spec().len(),
            forall|i: int| 0 <= i < r@.len() ==> r@[i] == (#[trigger] self.plugins_spec()[i]).0,
    {
        let mut out: Vec<i32> = Vec::new();
        let mut i: usize = 0;
        while i < self.plugins.len()
            invariant
                i <= self.plugins_spec().len(),
                out@.len() == i,
                forall|k: int| 0 <= k < i ==> out@[k] == (#[trigger] self.plugins_spec()[k]).0,
            decreases self.plugins@.len() - i,
        {
            out.push(self.plugins[i].0);
            i = i + 1;
        }
        out
    }

    /// The plugin names, in dispatch order.
    pub fn plugin_names(&self) -> (r: Vec<String>)
        ensures
            r@.len() == self.plugins_spec().len(),
            forall|i: int|
                0 <= i < r@.len() ==> r@[i]@ == (#[trigger] self.plugins_spec()[i]).1.spec_name()@,
    {
        let mut out: Vec<String> = Vec::new();
        let mut i: usize = 0;
        while i < self.plugins.len()
            invariant
                i <= self.plugins_spec().len(),
                out@.len() == i,
                forall|k: int|
                    0 <= k < i ==> out@[k]@ == (#[trigger] self.plugins_spec()[k]).1.spec_name()@,
            decreases self.plugins@.len() - i,
        {
            let name = self.plugins[i].1.name();
            out.push(name.to_owned());
            i = i + 1;
        }
        out
    }
}

} // verus!
