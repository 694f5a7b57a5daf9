//! The evaluator's environment model: a store of binding frames. Each frame
//! owns a name-to-value mapping and points at its parent; frames form a
//! chain searched innermost first. Frames are kept in one arena owned by the
//! runtime, and a closure names its defining frame by index, which keeps it
//! alive for as long as the runtime does.

use vstd::prelude::*;
use crate::datum::{Datum, Dat, ExtData};
use crate::value::{RtData, RtV, rt_dat_view, rdv, rt_view, dv_wf, lemma_dv_wf_mono};
use crate::error::{Error, ErrV};
use crate::prim::{PFunc, PrimSyntax, prelude, prelude_spec, proc_name_spec};
use crate::value::{ClosV, ClosureData, dvs_wf, views_of, truthy, lemma_dvs_wf_mono, lemma_dvs_wf_index};

verus! {

/// One binding frame: a parent link and the bindings made in it.
pub struct Frame {
    pub parent: Option<usize>,
    pub binds: Vec<(String, Datum<RtData>)>,
}

/// The mathematical image of a frame.
pub struct FrameV {
    pub parent: Option<int>,
    pub binds: Seq<(Seq<char>, Dat<RtV>)>,
}

/// The image of a binding list.
pub open spec fn binds_view(s: Seq<(String, Datum<RtData>)>) -> Seq<(Seq<char>, Dat<RtV>)> {
    Seq::new(
        s.len(),
        |i: int|
            if 0 <= i < s.len() {
                (s[i].0@, rt_dat_view(s[i].1))
            } else {
                (Seq::empty(), Dat::Nil)
            },
    )
}

/// The image of a frame.
pub open spec fn frame_view(f: Frame) -> FrameV {
    FrameV {
        parent: match f.parent {
            Some(p) => Some(p as int),
            None => None,
        },
        binds: binds_view(f.binds@),
    }
}

/// The image of the whole frame store.
pub open spec fn frames_view(fs: Seq<Frame>) -> Seq<FrameV> {
    Seq::new(
        fs.len(),
        |i: int|
            if 0 <= i < fs.len() {
                frame_view(fs[i])
            } else {
                FrameV { parent: None, binds: Seq::empty() }
            },
    )
}

/// Every value bound in a list of bindings is well formed for `n` frames.
pub open spec fn binds_wf(binds: Seq<(Seq<char>, Dat<RtV>)>, n: int) -> bool
    decreases binds,
{
    if binds.len() == 0 {
        true
    } else {
        dv_wf(binds[0].1, n) && binds_wf(binds.subrange(1, binds.len() as int), n)
    }
}

/// A frame at position `i` is well formed: its parent is an earlier frame
/// and its bound values point only at existing frames.
pub open spec fn frame_wf(f: FrameV, i: int, n: int) -> bool {
    (match f.parent {
        Some(p) => 0 <= p < i,
        None => true,
    }) && binds_wf(f.binds, n)
}

/// A well-formed store: nonempty, parents strictly earlier, values valid.
pub open spec fn state_wf(st: Seq<FrameV>) -> bool {
    st.len() >= 1 && (forall|i: int| 0 <= i < st.len() ==> #[trigger] frame_wf(st[i], i, st.len() as int))
}

/// The first binding of the name in the list, if any.
pub open spec fn bind_lookup(binds: Seq<(Seq<char>, Dat<RtV>)>, name: Seq<char>) -> Option<
    Dat<RtV>,
>
    decreases binds,
{
    if binds.len() == 0 {
        None
    } else if binds[0].0 == name {
        Some(binds[0].1)
    } else {
        bind_lookup(binds.subrange(1, binds.len() as int), name)
    }
}

/// The binding list with the first binding of the name replaced, if there
/// is one.
pub open spec fn bind_update(
    binds: Seq<(Seq<char>, Dat<RtV>)>,
    name: Seq<char>,
    v: Dat<RtV>,
) -> Option<Seq<(Seq<char>, Dat<RtV>)>>
    decreases binds,
{
    if binds.len() == 0 {
        None
    } else if binds[0].0 == name {
        Some(binds.update(0, (name, v)))
    } else {
        match bind_update(binds.subrange(1, binds.len() as int), name, v) {
            None => None,
            Some(rest) => Some(seq![binds[0]] + rest),
        }
    }
}

/// Look a name up along the frame chain, innermost frame first.
pub open spec fn lookup_spec(st: Seq<FrameV>, env: int, name: Seq<char>) -> Option<Dat<RtV>>
    decreases env,
{
    if env < 0 || env >= st.len() {
        None
    } else {
        match bind_lookup(st[env].binds, name) {
            Some(v) => Some(v),
            None => match st[env].parent {
                Some(p) => if 0 <= p < env {
                    lookup_spec(st, p, name)
                } else {
                    None
                },
                None => None,
            },
        }
    }
}

/// The store after `define`: the binding is replaced in the frame when the
/// name is already bound there, else added to it.
pub open spec fn define_spec(st: Seq<FrameV>, env: int, name: Seq<char>, v: Dat<RtV>) -> Seq<
    FrameV,
> {
    let f = st[env];
    match bind_update(f.binds, name, v) {
        Some(b2) => st.update(env, FrameV { parent: f.parent, binds: b2 }),
        None => st.update(env, FrameV { parent: f.parent, binds: f.binds.push((name, v)) }),
    }
}

/// The store after `set!`: the innermost existing binding found by the same
/// rule as lookup is replaced; an unbound name gives nothing.
pub open spec fn assign_spec(st: Seq<FrameV>, env: int, name: Seq<char>, v: Dat<RtV>) -> Option<
    Seq<FrameV>,
>
    decreases env,
{
    if env < 0 || env >= st.len() {
        None
    } else {
        let f = st[env];
        match bind_update(f.binds, name, v) {
            Some(b2) => Some(st.update(env, FrameV { parent: f.parent, binds: b2 })),
            None => match f.parent {
                Some(p) => if 0 <= p < env {
                    assign_spec(st, p, name, v)
                } else {
                    None
                },
                None => None,
            },
        }
    }
}

/// The runtime: the frame arena, frame 0 being the global environment.
pub struct Runtime {
    frames: Vec<Frame>,
}

impl Runtime {
    /// Whether the store is well formed; every public operation preserves
    /// this.
    pub closed spec fn wf(self) -> bool {
        state_wf(frames_view(self.frames@))
    }

    /// The image of the store.
    pub closed spec fn view_spec(self) -> Seq<FrameV> {
        frames_view(self.frames@)
    }

    /// How many frames the store holds.
    pub fn frame_count(&self) -> (r: usize)
        requires
            self.wf(),
        ensures
            r == self.view_spec().len(),
            r >= 1,
    {
        self.frames.len()
    }

    /// What well-formedness of the runtime means for its image.
    pub proof fn lemma_wf(self)
        requires
            self.wf(),
        ensures
            state_wf(self.view_spec()),
    {
    }
}

/// Find the first binding of the name from index `i` on; the index found.
fn bind_find(binds: &Vec<(String, Datum<RtData>)>, i: usize, name: &String) -> (r: Option<usize>)
    requires
        i <= binds@.len(),
    ensures
        match r {
            Some(j) => i <= j < binds@.len() && binds@[j as int].0@ == name@ && (forall|k: int|
                i <= k < j ==> #[trigger] binds@[k].0@ != name@),
            None => forall|k: int| i <= k < binds@.len() ==> #[trigger] binds@[k].0@ != name@,
        },
    decreases binds@.len() - i,
{
    if i == binds.len() {
        return None;
    }
    if binds[i].0 == *name {
        return Some(i);
    }
    bind_find(binds, i + 1, name)
}

/// What `bind_find` means for `bind_lookup`: the first match determines the
/// looked-up value, and no match means no binding.
proof fn lemma_bind_find_lookup(
    bv: Seq<(Seq<char>, Dat<RtV>)>,
    name: Seq<char>,
    j: int,
)
    requires
        0 <= j < bv.len(),
        bv[j].0 == name,
        forall|k: int| 0 <= k < j ==> #[trigger] bv[k].0 != name,
    ensures
        bind_lookup(bv, name) == Some(bv[j].1),
    decreases j,
{
    if j == 0 {
    } else {
        assert(bv[0].0 != name);
        let rest = bv.subrange(1, bv.len() as int);
        assert(rest[j - 1] == bv[j]);
        assert forall|k: int| 0 <= k < j - 1 implies #[trigger] rest[k].0 != name by {
            assert(rest[k] == bv[k + 1]);
        }
        lemma_bind_find_lookup(rest, name, j - 1);
    }
}

/// No match anywhere means no binding.
proof fn lemma_bind_find_none(bv: Seq<(Seq<char>, Dat<RtV>)>, name: Seq<char>)
    requires
        forall|k: int| 0 <= k < bv.len() ==> #[trigger] bv[k].0 != name,
    ensures
        bind_lookup(bv, name) is None,
    decreases bv,
{
    if bv.len() > 0 {
        let rest = bv.subrange(1, bv.len() as int);
        assert forall|k: int| 0 <= k < rest.len() implies #[trigger] rest[k].0 != name by {
            assert(rest[k] == bv[k + 1]);
        }
        lemma_bind_find_none(rest, name);
    }
}

/// The first match determines the updated binding list.
proof fn lemma_bind_find_update(
    bv: Seq<(Seq<char>, Dat<RtV>)>,
    name: Seq<char>,
    v: Dat<RtV>,
    j: int,
)
    requires
        0 <= j < bv.len(),
        bv[j].0 == name,
        forall|k: int| 0 <= k < j ==> #[trigger] bv[k].0 != name,
    ensures
        bind_update(bv, name, v) == Some(bv.update(j, (name, v))),
    decreases j,
{
    if j == 0 {
    } else {
        assert(bv[0].0 != name);
        let rest = bv.subrange(1, bv.len() as int);
        assert(rest[j - 1] == bv[j]);
        assert forall|k: int| 0 <= k < j - 1 implies #[trigger] rest[k].0 != name by {
            assert(rest[k] == bv[k + 1]);
        }
        lemma_bind_find_update(rest, name, v, j - 1);
        assert(bind_update(bv, name, v) == Some(seq![bv[0]] + rest.update(j - 1, (name, v))));
        assert(seq![bv[0]] + rest.update(j - 1, (name, v)) =~= bv.update(j, (name, v)));
    }
}

/// No match anywhere means nothing to update.
proof fn lemma_bind_find_update_none(bv: Seq<(Seq<char>, Dat<RtV>)>, name: Seq<char>, v: Dat<RtV>)
    requires
        forall|k: int| 0 <= k < bv.len() ==> #[trigger] bv[k].0 != name,
    ensures
        bind_update(bv, name, v) is None,
    decreases bv,
{
    if bv.len() > 0 {
        let rest = bv.subrange(1, bv.len() as int);
        assert forall|k: int| 0 <= k < rest.len() implies #[trigger] rest[k].0 != name by {
            assert(rest[k] == bv[k + 1]);
        }
        lemma_bind_find_update_none(rest, name, v);
    }
}

/// Updating one binding with a well-formed value keeps the list well formed.
proof fn lemma_binds_wf_update(
    bv: Seq<(Seq<char>, Dat<RtV>)>,
    n: int,
    j: int,
    name: Seq<char>,
    v: Dat<RtV>,
)
    requires
        binds_wf(bv, n),
        0 <= j < bv.len(),
        dv_wf(v, n),
    ensures
        binds_wf(bv.update(j, (name, v)), n),
    decreases j,
{
    let upd = bv.update(j, (name, v));
    if j == 0 {
        assert(upd.subrange(1, upd.len() as int) =~= bv.subrange(1, bv.len() as int));
    } else {
        let rest = bv.subrange(1, bv.len() as int);
        lemma_binds_wf_update(rest, n, j - 1, name, v);
        assert(upd.subrange(1, upd.len() as int) =~= rest.update(j - 1, (name, v)));
        assert(upd[0] == bv[0]);
    }
}

/// Appending a well-formed value keeps the list well formed.
proof fn lemma_binds_wf_push(
    bv: Seq<(Seq<char>, Dat<RtV>)>,
    n: int,
    name: Seq<char>,
    v: Dat<RtV>,
)
    requires
        binds_wf(bv, n),
        dv_wf(v, n),
    ensures
        binds_wf(bv.push((name, v)), n),
    decreases bv,
{
    let p = bv.push((name, v));
    if bv.len() == 0 {
        assert(p[0] == (name, v));
        assert(p.subrange(1, p.len() as int) =~= Seq::<(Seq<char>, Dat<RtV>)>::empty());
        assert(binds_wf(p.subrange(1, p.len() as int), n));
        assert(binds_wf(p, n));
    } else {
        let rest = bv.subrange(1, bv.len() as int);
        lemma_binds_wf_push(rest, n, name, v);
        assert(p.subrange(1, p.len() as int) =~= rest.push((name, v)));
        assert(p[0] == bv[0]);
        assert(binds_wf(p, n));
    }
}

/// Every value in a well-formed binding list is well formed.
proof fn lemma_binds_wf_index(bv: Seq<(Seq<char>, Dat<RtV>)>, n: int, j: int)
    requires
        binds_wf(bv, n),
        0 <= j < bv.len(),
    ensures
        dv_wf(bv[j].1, n),
    decreases j,
{
    if j > 0 {
        let rest = bv.subrange(1, bv.len() as int);
        lemma_binds_wf_index(rest, n, j - 1);
        assert(rest[j - 1] == bv[j]);
    }
}

/// A well-formed binding list stays well formed as the store grows.
proof fn lemma_binds_wf_mono(bv: Seq<(Seq<char>, Dat<RtV>)>, n: int, m: int)
    requires
        binds_wf(bv, n),
        n <= m,
    ensures
        binds_wf(bv, m),
    decreases bv,
{
    if bv.len() > 0 {
        lemma_dv_wf_mono(bv[0].1, n, m);
        lemma_binds_wf_mono(bv.subrange(1, bv.len() as int), n, m);
    }
}

/// A looked-up value is well formed.
proof fn lemma_lookup_wf(st: Seq<FrameV>, env: int, name: Seq<char>)
    requires
        state_wf(st),
    ensures
        match lookup_spec(st, env, name) {
            Some(v) => dv_wf(v, st.len() as int),
            None => true,
        },
    decreases env,
{
    if 0 <= env < st.len() {
        assert(frame_wf(st[env], env, st.len() as int));
        match bind_lookup(st[env].binds, name) {
            Some(v) => {
                lemma_bind_lookup_wf(st[env].binds, st.len() as int, name);
            },
            None => {
                match st[env].parent {
                    Some(p) => {
                        if 0 <= p < env {
                            lemma_lookup_wf(st, p, name);
                        }
                    },
                    None => {},
                }
            },
        }
    }
}

/// A value found by `bind_lookup` in a well-formed list is well formed.
proof fn lemma_bind_lookup_wf(bv: Seq<(Seq<char>, Dat<RtV>)>, n: int, name: Seq<char>)
    requires
        binds_wf(bv, n),
    ensures
        match bind_lookup(bv, name) {
            Some(v) => dv_wf(v, n),
            None => true,
        },
    decreases bv,
{
    if bv.len() > 0 && bv[0].0 != name {
        lemma_bind_lookup_wf(bv.subrange(1, bv.len() as int), n, name);
    }
}

impl Runtime {
    /// Look a name up, innermost frame first; absence is reported by the
    /// caller as `UnboundVariable`.
    pub fn lookup(&self, env: usize, name: &String) -> (r: Option<Datum<RtData>>)
        requires
            self.wf(),
            env < self.view_spec().len(),
        ensures
            match r {
                Some(d) => lookup_spec(self.view_spec(), env as int, name@) == Some(rt_dat_view(d))
                    && dv_wf(rt_dat_view(d), self.view_spec().len() as int),
                None => lookup_spec(self.view_spec(), env as int, name@) is None,
            },
    {
        proof {
            lemma_lookup_wf(frames_view(self.frames@), env as int, name@);
        }
        let mut cur: usize = env;
        loop
            invariant
                cur < self.frames@.len(),
                state_wf(frames_view(self.frames@)),
                lookup_spec(frames_view(self.frames@), env as int, name@) == lookup_spec(
                    frames_view(self.frames@),
                    cur as int,
                    name@,
                ),
            decreases cur,
        {
            let ghost st = frames_view(self.frames@);
            let ghost n = self.frames@.len() as int;
            proof {
                assert(frame_wf(st[cur as int], cur as int, n));
            }
            let fr = &self.frames[cur];
            match bind_find(&fr.binds, 0, name) {
                Some(j) => {
                    proof {
                        let bv = binds_view(fr.binds@);
                        assert(bv[j as int].0 == fr.binds@[j as int].0@);
                        assert forall|k: int| 0 <= k < j implies #[trigger] bv[k].0 != name@ by {
                            assert(bv[k].0 == fr.binds@[k].0@);
                        }
                        lemma_bind_find_lookup(bv, name@, j as int);
                        lemma_lookup_wf(st, cur as int, name@);
                    }
                    return Some(fr.binds[j].1.dup());
                },
                None => {
                    proof {
                        let bv = binds_view(fr.binds@);
                        assert forall|k: int| 0 <= k < bv.len() implies #[trigger] bv[k].0
                            != name@ by {
                            assert(bv[k].0 == fr.binds@[k].0@);
                        }
                        lemma_bind_find_none(bv, name@);
                    }
                    match fr.parent {
                        Some(p) => {
                            proof {
                                assert(st[cur as int].parent == Some(p as int));
                            }
                            cur = p;
                        },
                        None => {
                            return None;
                        },
                    }
                },
            }
        }
    }

    /// Introduce or overwrite a binding in the given frame.
    pub fn define(&mut self, env: usize, name: &String, val: Datum<RtData>)
        requires
            old(self).wf(),
            env < old(self).view_spec().len(),
            dv_wf(rt_dat_view(val), old(self).view_spec().len() as int),
        ensures
            final(self).wf(),
            final(self).view_spec() == define_spec(
                old(self).view_spec(),
                env as int,
                name@,
                rt_dat_view(val),
            ),
            final(self).view_spec().len() == old(self).view_spec().len(),
    {
        let ghost st0 = frames_view(self.frames@);
        let ghost n = self.frames@.len() as int;
        let fr = &self.frames[env];
        let found = bind_find(&fr.binds, 0, name);
        let ghost bv = binds_view(fr.binds@);
        proof {
            assert(frame_wf(st0[env as int], env as int, n));
        }
        match found {
            Some(j) => {
                proof {
                    assert(bv[j as int].0 == fr.binds@[j as int].0@);
                    assert forall|k: int| 0 <= k < j implies #[trigger] bv[k].0 != name@ by {
                        assert(bv[k].0 == fr.binds@[k].0@);
                    }
                    lemma_bind_find_update(bv, name@, rt_dat_view(val), j as int);
                    lemma_binds_wf_update(bv, n, j as int, name@, rt_dat_view(val));
                }
                let fr_mut = &mut self.frames[env];
                fr_mut.binds[j] = (name.clone(), val);
                proof {
                    assert(binds_view(self.frames@[env as int].binds@) =~= bv.update(
                        j as int,
                        (name@, rt_dat_view(val)),
                    ));
                    assert(frames_view(self.frames@) =~= define_spec(
                        st0,
                        env as int,
                        name@,
                        rt_dat_view(val),
                    ));
                    assert forall|i: int|
                        0 <= i < frames_view(self.frames@).len() implies #[trigger] frame_wf(
                        frames_view(self.frames@)[i],
                        i,
                        n,
                    ) by {
                        assert(frame_wf(st0[i], i, n));
                        if i != env {
                            assert(frames_view(self.frames@)[i] == st0[i]);
                        }
                    }
                }
            },
            None => {
                proof {
                    assert forall|k: int| 0 <= k < bv.len() implies #[trigger] bv[k].0 != name@ by {
                        assert(bv[k].0 == fr.binds@[k].0@);
                    }
                    lemma_bind_find_update_none(bv, name@, rt_dat_view(val));
                    lemma_binds_wf_push(bv, n, name@, rt_dat_view(val));
                }
                let fr_mut = &mut self.frames[env];
                fr_mut.binds.push((name.clone(), val));
                proof {
                    assert(binds_view(self.frames@[env as int].binds@) =~= bv.push(
                        (name@, rt_dat_view(val)),
                    ));
                    assert(frames_view(self.frames@) =~= define_spec(
                        st0,
                        env as int,
                        name@,
                        rt_dat_view(val),
                    ));
                    assert forall|i: int|
                        0 <= i < frames_view(self.frames@).len() implies #[trigger] frame_wf(
                        frames_view(self.frames@)[i],
                        i,
                        n,
                    ) by {
                        assert(frame_wf(st0[i], i, n));
                        if i != env {
                            assert(frames_view(self.frames@)[i] == st0[i]);
                        }
                    }
                }
            },
        }
    }

    /// Rebind an existing binding found by the lookup rule; an unbound name
    /// is an `UnboundVariable` error.
    pub fn assign(&mut self, env: usize, name: &String, val: Datum<RtData>) -> (r: Result<
        (),
        Error,
    >)
        requires
            old(self).wf(),
            env < old(self).view_spec().len(),
            dv_wf(rt_dat_view(val), old(self).view_spec().len() as int),
        ensures
            final(self).wf(),
            match r {
                Ok(()) => assign_spec(old(self).view_spec(), env as int, name@, rt_dat_view(val))
                    == Some(final(self).view_spec()),
                Err(e) => assign_spec(old(self).view_spec(), env as int, name@, rt_dat_view(val))
                    is None && final(self).view_spec() == old(self).view_spec() && (e
                    matches Error::UnboundVariable(s) && s@ == name@),
            },
            final(self).view_spec().len() == old(self).view_spec().len(),
    {
        let ghost st0 = frames_view(self.frames@);
        let ghost n = self.frames@.len() as int;
        let mut cur: usize = env;
        loop
            invariant
                cur < self.frames@.len(),
                state_wf(st0),
                st0 == frames_view(self.frames@),
                st0 == old(self).view_spec(),
                n == st0.len(),
                dv_wf(rt_dat_view(val), n),
                env < st0.len(),
                assign_spec(st0, env as int, name@, rt_dat_view(val)) == assign_spec(
                    st0,
                    cur as int,
                    name@,
                    rt_dat_view(val),
                ),
            decreases cur,
        {
            proof {
                assert(frame_wf(st0[cur as int], cur as int, n));
            }
            let fr = &self.frames[cur];
            let found = bind_find(&fr.binds, 0, name);
            let ghost bv = binds_view(fr.binds@);
            match found {
                Some(j) => {
                    proof {
                        assert(bv[j as int].0 == fr.binds@[j as int].0@);
                        assert forall|k: int| 0 <= k < j implies #[trigger] bv[k].0 != name@ by {
                            assert(bv[k].0 == fr.binds@[k].0@);
                        }
                        lemma_bind_find_update(bv, name@, rt_dat_view(val), j as int);
                        lemma_binds_wf_update(bv, n, j as int, name@, rt_dat_view(val));
                    }
                    let fr_mut = &mut self.frames[cur];
                    fr_mut.binds[j] = (name.clone(), val);
                    proof {
                        assert(binds_view(self.frames@[cur as int].binds@) =~= bv.update(
                            j as int,
                            (name@, rt_dat_view(val)),
                        ));
                        assert(frames_view(self.frames@) =~= st0.update(
                            cur as int,
                            FrameV {
                                parent: st0[cur as int].parent,
                                binds: bv.update(j as int, (name@, rt_dat_view(val))),
                            },
                        ));
                        assert(st0[cur as int].binds == bv);
                        assert(bind_update(bv, name@, rt_dat_view(val)) == Some(bv.update(
                            j as int,
                            (name@, rt_dat_view(val)),
                        )));
                        assert(assign_spec(st0, cur as int, name@, rt_dat_view(val)) == Some(
                            frames_view(self.frames@),
                        ));
                        assert forall|i: int|
                            0 <= i < frames_view(self.frames@).len() implies #[trigger] frame_wf(
                            frames_view(self.frames@)[i],
                            i,
                            n,
                        ) by {
                            assert(frame_wf(st0[i], i, n));
                            if i != cur {
                                assert(frames_view(self.frames@)[i] == st0[i]);
                            }
                        }
                        assert(state_wf(frames_view(self.frames@)));
                        assert(self.view_spec() == frames_view(self.frames@));
                        assert(assign_spec(st0, env as int, name@, rt_dat_view(val)) == Some(
                            self.view_spec(),
                        ));
                        assert(self.view_spec().len() == st0.len());
                        assert(st0 == old(self).view_spec());
                    }
                    return Ok(());
                },
                None => {
                    proof {
                        assert forall|k: int| 0 <= k < bv.len() implies #[trigger] bv[k].0
                            != name@ by {
                            assert(bv[k].0 == fr.binds@[k].0@);
                        }
                        lemma_bind_find_update_none(bv, name@, rt_dat_view(val));
                    }
                    match fr.parent {
                        Some(p) => {
                            proof {
                                assert(st0[cur as int].parent == Some(p as int));
                            }
                            cur = p;
                        },
                        None => {
                            proof {
                                assert(st0[cur as int].binds == bv);
                                assert(st0[cur as int].parent is None);
                                assert(assign_spec(st0, cur as int, name@, rt_dat_view(val))
                                    is None);
                            }
                            return Err(Error::UnboundVariable(name.clone()));
                        },
                    }
                },
            }
        }
    }

    /// A fresh runtime whose global frame binds the standard prelude.
    pub fn new_std() -> (r: Runtime)
        ensures
            r.wf(),
            r.view_spec().len() == 1,
            r.view_spec()[0].parent is None,
            forall|i: int|
                0 <= i < prelude_spec().len() ==> #[trigger] r.view_spec()[0].binds[i] == (
                    proc_name_spec(prelude_spec()[i]),
                    Dat::<RtV>::Ext(RtV::Prim(prelude_spec()[i])),
                ),
            r.view_spec()[0].binds.len() == prelude_spec().len(),
    {
        let prims = prelude();
        let mut binds: Vec<(String, Datum<RtData>)> = Vec::new();
        let mut i: usize = 0;
        while i < prims.len()
            invariant
                binds@.len() == i,
                0 <= i <= prims@.len(),
                prims@.len() == prelude_spec().len(),
                forall|k: int|
                    0 <= k < prims@.len() ==> (#[trigger] prims@[k]).1 == prelude_spec()[k]
                        && prims@[k].0@ == proc_name_spec(prelude_spec()[k]),
                forall|k: int|
                    0 <= k < i ==> (#[trigger] binds@[k]).0@ == proc_name_spec(prelude_spec()[k])
                        && binds@[k].1 == Datum::<RtData>::Ext(RtData::Prim(prelude_spec()[k])),
            decreases prims@.len() - i,
        {
            let (name, p) = (prims[i].0.clone(), prims[i].1);
            binds.push((name, Datum::Ext(RtData::Prim(p))));
            i = i + 1;
        }
        let frame = Frame { parent: None, binds };
        let frames_vec = vec_singleton(frame);
        let r = Runtime { frames: frames_vec };
        proof {
            let st = frames_view(r.frames@);
            assert(st.len() == 1);
            let bv = binds_view(r.frames@[0].binds@);
            assert forall|k: int| 0 <= k < bv.len() implies #[trigger] bv[k] == (
                proc_name_spec(prelude_spec()[k]),
                Dat::<RtV>::Ext(RtV::Prim(prelude_spec()[k])),
            ) by {
                assert(bv[k].0 == r.frames@[0].binds@[k].0@);
                assert(bv[k].1 == rt_dat_view(r.frames@[0].binds@[k].1));
                assert(r.frames@[0].binds@[k].1 == Datum::<RtData>::Ext(
                    RtData::Prim(prelude_spec()[k]),
                ));
                assert(rt_view(RtData::Prim(prelude_spec()[k])) == RtV::Prim(prelude_spec()[k]));
                assert(rt_dat_view(Datum::<RtData>::Ext(RtData::Prim(prelude_spec()[k])))
                    == Dat::<RtV>::Ext(RtV::Prim(prelude_spec()[k])));
            }
            lemma_prim_binds_wf(bv, 1);
            assert(frame_wf(st[0], 0, 1));
            assert(state_wf(st));
        }
        r
    }
}

/// A one-element vector.
fn vec_singleton(f: Frame) -> (r: Vec<Frame>)
    ensures
        r@.len() == 1,
        r@[0] == f,
{
    let mut v: Vec<Frame> = Vec::new();
    v.push(f);
    v
}

/// A binding list of primitive handles is well formed for any store.
proof fn lemma_prim_binds_wf(bv: Seq<(Seq<char>, Dat<RtV>)>, n: int)
    requires
        forall|k: int| 0 <= k < bv.len() ==> (#[trigger] bv[k].1) matches Dat::Ext(RtV::Prim(_)),
    ensures
        binds_wf(bv, n),
    decreases bv,
{
    if bv.len() > 0 {
        let rest = bv.subrange(1, bv.len() as int);
        assert forall|k: int| 0 <= k < rest.len() implies (#[trigger] rest[k].1) matches Dat::Ext(
            RtV::Prim(_),
        ) by {
            assert(rest[k] == bv[k + 1]);
        }
        lemma_prim_binds_wf(rest, n);
    }
}

} // verus!

// ---------------------------------------------------------------------------
// The evaluator. The semantics is given by the specification-level
// interpreter `spec_eval` below; the executable evaluator is proven to
// produce exactly its results and state. Evaluation is direct-style
// recursion bounded by an explicit fuel, the host's recursion-depth bound;
// exhausting it reports `DepthLimit`.
// ---------------------------------------------------------------------------

verus! {

/// Which special form a head datum names, if any.
pub open spec fn form_of(d: Dat<RtV>) -> Option<PrimSyntax> {
    match d {
        Dat::Sym(s) => if s == "if"@ {
            Some(PrimSyntax::SynIf)
        } else if s == "lambda"@ {
            Some(PrimSyntax::SynLambda)
        } else if s == "define"@ {
            Some(PrimSyntax::SynDefine)
        } else if s == "set!"@ {
            Some(PrimSyntax::SynSet)
        } else if s == "quote"@ {
            Some(PrimSyntax::SynQuote)
        } else if s == "quasiquote"@ {
            Some(PrimSyntax::SynQQuote)
        } else if s == "unquote"@ {
            Some(PrimSyntax::SynUnquote)
        } else {
            None
        },
        _ => None,
    }
}

/// Recognize a special-form keyword.
fn form_of_exec(d: &Datum<RtData>) -> (r: Option<PrimSyntax>)
    ensures
        r == form_of(rt_dat_view(*d)),
{
    match d {
        Datum::Sym(s) => {
            if *s == "if".to_owned() {
                Some(PrimSyntax::SynIf)
            } else if *s == "lambda".to_owned() {
                Some(PrimSyntax::SynLambda)
            } else if *s == "define".to_owned() {
                Some(PrimSyntax::SynDefine)
            } else if *s == "set!".to_owned() {
                Some(PrimSyntax::SynSet)
            } else if *s == "quote".to_owned() {
                Some(PrimSyntax::SynQuote)
            } else if *s == "quasiquote".to_owned() {
                Some(PrimSyntax::SynQQuote)
            } else if *s == "unquote".to_owned() {
                Some(PrimSyntax::SynUnquote)
            } else {
                None
            }
        },
        _ => None,
    }
}

/// The operand of a two-element form `(kw x)` whose keyword is `kw`.
pub open spec fn as_form2(d: Dat<RtV>, kw: Seq<char>) -> Option<Dat<RtV>> {
    match d {
        Dat::Cons(h, t) => match *h {
            Dat::Sym(s) => if s == kw {
                match *t {
                    Dat::Cons(x, r) => if *r == Dat::<RtV>::Nil {
                        Some(*x)
                    } else {
                        None
                    },
                    _ => None,
                }
            } else {
                None
            },
            _ => None,
        },
        _ => None,
    }
}

/// Whether an image is a proper list.
pub open spec fn vis_proper(d: Dat<RtV>) -> bool
    decreases d,
{
    match d {
        Dat::Nil => true,
        Dat::Cons(_, t) => vis_proper(*t),
        _ => false,
    }
}

/// The elements along an image's cons spine.
pub open spec fn velems(d: Dat<RtV>) -> Seq<Dat<RtV>>
    decreases d,
{
    match d {
        Dat::Cons(h, t) => seq![*h] + velems(*t),
        _ => Seq::empty(),
    }
}

/// Whether a datum is a proper list.
fn is_proper(d: &Datum<RtData>) -> (r: bool)
    ensures
        r == vis_proper(rt_dat_view(*d)),
    decreases *d,
{
    match d {
        Datum::Nil => true,
        Datum::Cons(rc) => is_proper(&rc.1),
        _ => false,
    }
}

/// The two-element list `(a b)`.
fn list2(a: Datum<RtData>, b: Datum<RtData>) -> (r: Datum<RtData>)
    ensures
        rt_dat_view(r) == Dat::Cons(
            Box::new(rt_dat_view(a)),
            Box::new(Dat::Cons(Box::new(rt_dat_view(b)), Box::new(Dat::Nil))),
        ),
{
    let ghost av = rt_dat_view(a);
    let ghost bv = rt_dat_view(b);
    let inner = crate::datum::cons(b, Datum::Nil);
    proof {
        assert(inner is Cons);
        assert(rt_dat_view((inner->Cons_0).0) == bv);
        assert(rt_dat_view((inner->Cons_0).1) == Dat::<RtV>::Nil);
        assert(rt_dat_view(inner) == Dat::Cons(
            Box::new(rt_dat_view((inner->Cons_0).0)),
            Box::new(rt_dat_view((inner->Cons_0).1)),
        ));
        assert(rt_dat_view(inner) == Dat::Cons(Box::new(bv), Box::new(Dat::<RtV>::Nil)));
    }
    let outer = crate::datum::cons(a, inner);
    proof {
        assert(rt_dat_view(outer) == Dat::Cons(Box::new(av), Box::new(rt_dat_view(inner))));
    }
    outer
}

/// Parameter lists: a proper list of symbols (fixed arity), a single symbol
/// (fully variadic), or an improper list of symbols ending in a symbol
/// (fixed prefix plus rest).
pub open spec fn parse_params_spec(d: Dat<RtV>) -> Option<(Seq<Seq<char>>, Option<Seq<char>>)>
    decreases d,
{
    match d {
        Dat::Sym(s) => Some((Seq::empty(), Some(s))),
        Dat::Nil => Some((Seq::empty(), None)),
        Dat::Cons(h, t) => match *h {
            Dat::Sym(a) => match parse_params_spec(*t) {
                Some(pr) => Some((seq![a] + pr.0, pr.1)),
                None => None,
            },
            _ => None,
        },
        _ => None,
    }
}

/// Parse a parameter list.
fn parse_params(d: &Datum<RtData>) -> (r: Option<(Vec<String>, Option<String>)>)
    ensures
        match (r, parse_params_spec(rt_dat_view(*d))) {
            (Some(p), Some(pv)) => p.0.deep_view() == pv.0 && p.1.deep_view() == pv.1,
            (None, None) => true,
            _ => false,
        },
    decreases *d,
{
    match d {
        Datum::Sym(s) => {
            let v: Vec<String> = Vec::new();
            proof {
                assert(v.deep_view() =~= Seq::<Seq<char>>::empty());
            }
            Some((v, Some(s.clone())))
        },
        Datum::Nil => {
            let v: Vec<String> = Vec::new();
            proof {
                assert(v.deep_view() =~= Seq::<Seq<char>>::empty());
            }
            Some((v, None))
        },
        Datum::Cons(rc) => match &rc.0 {
            Datum::Sym(a) => match parse_params(&rc.1) {
                Some(pr) => {
                    let ghost ps0 = pr.0@;
                    let mut ps = pr.0;
                    ps.insert(0, a.clone());
                    proof {
                        let pv = parse_params_spec(*(rt_dat_view(*d)->Cons_1)).unwrap();
                        assert(ps@ == ps0.insert(0, *a));
                        assert forall|k: int| 0 <= k < ps.deep_view().len() implies ps.deep_view()[k]
                            == (seq![a@] + pv.0)[k] by {
                            if k == 0 {
                                assert(ps@[0] == *a);
                            } else {
                                assert(ps@[k] == ps0[k - 1]);
                            }
                        }
                        assert(ps.deep_view() =~= seq![a@] + pv.0);
                        assert(rdv(&rc.0) == Dat::<RtV>::Sym(a@));
                        assert(*(rt_dat_view(*d)->Cons_0) == Dat::<RtV>::Sym(a@));
                        assert(*(rt_dat_view(*d)->Cons_1) == rdv(&rc.1));
                        assert(parse_params_spec(rt_dat_view(*d)) == Some(
                            (seq![a@] + pv.0, pv.1),
                        ));
                    }
                    Some((ps, pr.1))
                },
                None => {
                    proof {
                        assert(*(rt_dat_view(*d)->Cons_0) == rdv(&rc.0));
                        assert(*(rt_dat_view(*d)->Cons_1) == rdv(&rc.1));
                        assert(parse_params_spec(rt_dat_view(*d)) is None);
                    }
                    None
                },
            },
            _ => {
                proof {
                    assert(*(rt_dat_view(*d)->Cons_0) == rdv(&rc.0));
                    assert(parse_params_spec(rt_dat_view(*d)) is None);
                }
                None
            },
        },
        _ => None,
    }
}

/// Collect the elements of a proper list.
fn collect_elems(d: &Datum<RtData>) -> (r: Vec<Datum<RtData>>)
    requires
        vis_proper(rt_dat_view(*d)),
    ensures
        views_of(r@) == velems(rt_dat_view(*d)),
    decreases *d,
{
    match d {
        Datum::Cons(rc) => {
            let mut v = collect_elems(&rc.1);
            v.insert(0, rc.0.dup());
            proof {
                assert(views_of(v@) =~= seq![rdv(&rc.0)] + velems(rdv(&rc.1)));
            }
            v
        },
        _ => {
            let v: Vec<Datum<RtData>> = Vec::new();
            proof {
                assert(views_of(v@) =~= Seq::<Dat<RtV>>::empty());
            }
            v
        },
    }
}

/// The bindings a closure application makes: each fixed parameter to its
/// argument, then the rest parameter, if any, to the list of the extras.
pub open spec fn closure_binds(
    params: Seq<Seq<char>>,
    rest: Option<Seq<char>>,
    args: Seq<Dat<RtV>>,
) -> Seq<(Seq<char>, Dat<RtV>)> {
    Seq::new(
        params.len(),
        |i: int|
            if 0 <= i < params.len() {
                (params[i], args[i])
            } else {
                (Seq::empty(), Dat::Nil)
            },
    ) + (match rest {
        Some(rn) => seq![(rn, crate::primitive::list_of(args.skip(params.len() as int)))],
        None => Seq::empty(),
    })
}

/// A proper-list image of well-formed elements is well formed.
proof fn lemma_list_of_wf(args: Seq<Dat<RtV>>, n: int)
    requires
        dvs_wf(args, n),
    ensures
        dv_wf(crate::primitive::list_of(args), n),
    decreases args,
{
    if args.len() > 0 {
        lemma_list_of_wf(args.subrange(1, args.len() as int), n);
    }
}

/// Concatenation of well-formed images is well formed.
proof fn lemma_concat_wf(x: Dat<RtV>, y: Dat<RtV>, n: int)
    requires
        dv_wf(x, n),
        dv_wf(y, n),
    ensures
        dv_wf(crate::datum::concat_dat(x, y), n),
    decreases x,
{
    match x {
        Dat::Cons(h, t) => {
            lemma_concat_wf(*t, y, n);
        },
        _ => {},
    }
}

/// The elements of a well-formed list image are well formed.
proof fn lemma_velems_wf(d: Dat<RtV>, n: int)
    requires
        dv_wf(d, n),
    ensures
        dvs_wf(velems(d), n),
    decreases d,
{
    match d {
        Dat::Cons(h, t) => {
            lemma_velems_wf(*t, n);
            lemma_dvs_wf_cons(*h, velems(*t), n);
        },
        _ => {
            assert(velems(d) =~= Seq::<Dat<RtV>>::empty());
        },
    }
}

/// Prepending a well-formed image keeps a sequence well formed.
proof fn lemma_dvs_wf_cons(h: Dat<RtV>, s: Seq<Dat<RtV>>, n: int)
    requires
        dv_wf(h, n),
        dvs_wf(s, n),
    ensures
        dvs_wf(seq![h] + s, n),
{
    let p = seq![h] + s;
    assert(p[0] == h);
    assert(p.subrange(1, p.len() as int) =~= s);
}

/// Appending a well-formed image keeps a sequence well formed.
proof fn lemma_dvs_wf_snoc(s: Seq<Dat<RtV>>, h: Dat<RtV>, n: int)
    requires
        dvs_wf(s, n),
        dv_wf(h, n),
    ensures
        dvs_wf(s.push(h), n),
    decreases s,
{
    let p = s.push(h);
    if s.len() == 0 {
        assert(p[0] == h);
        assert(p.subrange(1, p.len() as int) =~= Seq::<Dat<RtV>>::empty());
        assert(dvs_wf(p.subrange(1, p.len() as int), n));
        assert(dvs_wf(p, n));
    } else {
        lemma_dvs_wf_snoc(s.subrange(1, s.len() as int), h, n);
        assert(p.subrange(1, p.len() as int) =~= s.subrange(1, s.len() as int).push(h));
        assert(p[0] == s[0]);
        assert(dvs_wf(p, n));
    }
}

/// A suffix of a well-formed sequence is well formed.
proof fn lemma_dvs_wf_skip(s: Seq<Dat<RtV>>, n: int, i: int)
    requires
        dvs_wf(s, n),
        0 <= i <= s.len(),
    ensures
        dvs_wf(s.skip(i), n),
    decreases i,
{
    if i == 0 {
        assert(s.skip(0) =~= s);
    } else {
        assert(s.skip(i) =~= s.subrange(1, s.len() as int).skip(i - 1));
        lemma_dvs_wf_skip(s.subrange(1, s.len() as int), n, i - 1);
    }
}

/// A primitive applied to well-formed arguments gives a well-formed result.
proof fn lemma_apply_prim_wf(f: PFunc, args: Seq<Dat<RtV>>, n: int)
    requires
        dvs_wf(args, n),
        !(f is PEval),
    ensures
        match crate::primitive::apply_prim_spec(f, args) {
            Ok(v) => dv_wf(v, n),
            Err(_) => true,
        },
{
    match crate::primitive::apply_prim_spec(f, args) {
        Ok(v) => {
            match f {
                PFunc::PBegin => {
                    if args.len() > 0 {
                        lemma_dvs_wf_index(args, n, args.len() - 1);
                    }
                },
                PFunc::PEqv | PFunc::PEqual => {},
                PFunc::PCar => {
                    lemma_dvs_wf_index(args, n, 0);
                },
                PFunc::PCdr => {
                    lemma_dvs_wf_index(args, n, 0);
                },
                PFunc::PList => {
                    lemma_list_of_wf(args, n);
                },
                _ => {},
            }
        },
        Err(_) => {},
    }
}

/// What the specification interpreter returns alongside the new store.
pub type EvalOut = Result<Dat<RtV>, ErrV>;

/// The specification-level evaluator. Self-evaluating forms return
/// themselves; `()` cannot be evaluated; a symbol is looked up along the
/// frame chain; a pair is a special form when its head is a keyword, else a
/// procedure application with the argument part required to be a proper
/// list and evaluated left to right.
pub open spec fn spec_eval(st: Seq<FrameV>, d: Dat<RtV>, env: int, fuel: nat) -> (Seq<FrameV>,
    EvalOut)
    decreases fuel,
{
    if fuel == 0 {
        (st, Err(ErrV::DepthLimit))
    } else {
        let f = (fuel - 1) as nat;
        match d {
            Dat::Sym(name) => (
                st,
                match lookup_spec(st, env, name) {
                    Some(v) => Ok(v),
                    None => Err(ErrV::UnboundVariable(name)),
                },
            ),
            Dat::Nil => (st, Err(ErrV::NilEval)),
            Dat::Cons(h, t) => {
                match form_of(*h) {
                    Some(PrimSyntax::SynQuote) => (
                        st,
                        match *t {
                            Dat::Cons(x, rest) => if *rest == Dat::<RtV>::Nil {
                                Ok(*x)
                            } else {
                                Err(ErrV::ArgNumError)
                            },
                            _ => Err(ErrV::ArgNumError),
                        },
                    ),
                    Some(PrimSyntax::SynIf) => spec_if(st, *t, env, f),
                    Some(PrimSyntax::SynLambda) => (st, spec_lambda(*t, env)),
                    Some(PrimSyntax::SynDefine) => spec_define(st, *t, env, f),
                    Some(PrimSyntax::SynSet) => spec_set(st, *t, env, f),
                    Some(PrimSyntax::SynQQuote) => match *t {
                        Dat::Cons(x, rest) => if *rest == Dat::<RtV>::Nil {
                            spec_qq(st, *x, env, 1, f)
                        } else {
                            (st, Err(ErrV::ArgNumError))
                        },
                        _ => (st, Err(ErrV::ArgNumError)),
                    },
                    Some(PrimSyntax::SynUnquote) => (st, Err(ErrV::TypeError)),
                    None => {
                        if !vis_proper(*t) {
                            (st, Err(ErrV::NotList))
                        } else {
                            let (st1, hr) = spec_eval(st, *h, env, f);
                            match hr {
                                Err(e) => (st1, Err(e)),
                                Ok(fv) => {
                                    let (st2, ar) = spec_eval_chain(st1, *t, env, f);
                                    match ar {
                                        Err(e) => (st2, Err(e)),
                                        Ok(args) => spec_apply(st2, fv, args, f),
                                    }
                                },
                            }
                        }
                    },
                }
            },
            _ => (st, Ok(d)),
        }
    }
}

/// `if`: evaluate the condition; anything but `#f` selects the consequent,
/// else the alternative, or an unspecified value (here `()`) without one.
pub open spec fn spec_if(st: Seq<FrameV>, t: Dat<RtV>, env: int, fuel: nat) -> (Seq<FrameV>,
    EvalOut)
    decreases fuel,
{
    if fuel == 0 {
        (st, Err(ErrV::DepthLimit))
    } else {
        let f = (fuel - 1) as nat;
        match t {
            Dat::Cons(c, rest1) => match *rest1 {
                Dat::Cons(th, rest2) => {
                    let shape_ok = match *rest2 {
                        Dat::Nil => true,
                        Dat::Cons(_, n2) => *n2 == Dat::<RtV>::Nil,
                        _ => false,
                    };
                    if shape_ok {
                        let (st1, cr) = spec_eval(st, *c, env, f);
                        match cr {
                            Err(e) => (st1, Err(e)),
                            Ok(cv) => if truthy(cv) {
                                spec_eval(st1, *th, env, f)
                            } else {
                                match *rest2 {
                                    Dat::Cons(el, _) => spec_eval(st1, *el, env, f),
                                    _ => (st1, Ok(Dat::Nil)),
                                }
                            },
                        }
                    } else {
                        (st, Err(ErrV::ArgNumError))
                    }
                },
                _ => (st, Err(ErrV::ArgNumError)),
            },
            _ => (st, Err(ErrV::ArgNumError)),
        }
    }
}

/// `lambda`: capture the defining environment together with the parameter
/// names and body expressions.
pub open spec fn spec_lambda(t: Dat<RtV>, env: int) -> EvalOut {
    match t {
        Dat::Cons(params, body) => {
            if !vis_proper(*body) {
                Err(ErrV::NotList)
            } else {
                match parse_params_spec(*params) {
                    None => Err(ErrV::TypeError),
                    Some(pr) => Ok(
                        Dat::Ext(
                            RtV::Closure(
                                ClosV { params: pr.0, rest: pr.1, body: velems(*body), env },
                            ),
                        ),
                    ),
                }
            }
        },
        _ => Err(ErrV::ArgNumError),
    }
}

/// `define`: bind a name in the current frame, either to the value of an
/// expression or, in the function shorthand, to a closure.
pub open spec fn spec_define(st: Seq<FrameV>, t: Dat<RtV>, env: int, fuel: nat) -> (Seq<FrameV>,
    EvalOut)
    decreases fuel,
{
    if fuel == 0 {
        (st, Err(ErrV::DepthLimit))
    } else {
        let f = (fuel - 1) as nat;
        match t {
            Dat::Cons(target, rest) => match *target {
                Dat::Sym(name) => match *rest {
                    Dat::Cons(expr, rest2) => if *rest2 == Dat::<RtV>::Nil {
                        let (st1, vr) = spec_eval(st, *expr, env, f);
                        match vr {
                            Err(e) => (st1, Err(e)),
                            Ok(v) => (define_spec(st1, env, name, v), Ok(Dat::Nil)),
                        }
                    } else {
                        (st, Err(ErrV::ArgNumError))
                    },
                    _ => (st, Err(ErrV::ArgNumError)),
                },
                Dat::Cons(fname, params) => match *fname {
                    Dat::Sym(name) => {
                        if !vis_proper(*rest) {
                            (st, Err(ErrV::NotList))
                        } else {
                            match parse_params_spec(*params) {
                                None => (st, Err(ErrV::TypeError)),
                                Some(pr) => (
                                    define_spec(
                                        st,
                                        env,
                                        name,
                                        Dat::Ext(
                                            RtV::Closure(
                                                ClosV {
                                                    params: pr.0,
                                                    rest: pr.1,
                                                    body: velems(*rest),
                                                    env,
                                                },
                                            ),
                                        ),
                                    ),
                                    Ok(Dat::Nil),
                                ),
                            }
                        }
                    },
                    _ => (st, Err(ErrV::TypeError)),
                },
                _ => (st, Err(ErrV::TypeError)),
            },
            _ => (st, Err(ErrV::ArgNumError)),
        }
    }
}

/// `set!`: evaluate the expression and rebind the innermost existing
/// binding; an unbound name is an error carrying the name.
pub open spec fn spec_set(st: Seq<FrameV>, t: Dat<RtV>, env: int, fuel: nat) -> (Seq<FrameV>,
    EvalOut)
    decreases fuel,
{
    if fuel == 0 {
        (st, Err(ErrV::DepthLimit))
    } else {
        let f = (fuel - 1) as nat;
        match t {
            Dat::Cons(target, rest) => match (*target, *rest) {
                (Dat::Sym(name), Dat::Cons(expr, rest2)) => if *rest2 == Dat::<RtV>::Nil {
                    let (st1, vr) = spec_eval(st, *expr, env, f);
                    match vr {
                        Err(e) => (st1, Err(e)),
                        Ok(v) => match assign_spec(st1, env, name, v) {
                            Some(st2) => (st2, Ok(Dat::Nil)),
                            None => (st1, Err(ErrV::UnboundVariable(name))),
                        },
                    }
                } else {
                    (st, Err(ErrV::ArgNumError))
                },
                _ => (st, Err(ErrV::ArgNumError)),
            },
            _ => (st, Err(ErrV::ArgNumError)),
        }
    }
}

/// Evaluate the elements of an argument chain, left to right.
pub open spec fn spec_eval_chain(st: Seq<FrameV>, t: Dat<RtV>, env: int, fuel: nat) -> (Seq<
    FrameV,
>, Result<Seq<Dat<RtV>>, ErrV>)
    decreases fuel,
{
    if fuel == 0 {
        (st, Err(ErrV::DepthLimit))
    } else {
        let f = (fuel - 1) as nat;
        match t {
            Dat::Cons(h, rest) => {
                let (st1, hr) = spec_eval(st, *h, env, f);
                match hr {
                    Err(e) => (st1, Err(e)),
                    Ok(v) => {
                        let (st2, rr) = spec_eval_chain(st1, *rest, env, f);
                        match rr {
                            Err(e) => (st2, Err(e)),
                            Ok(vs) => (st2, Ok(seq![v] + vs)),
                        }
                    },
                }
            },
            _ => (st, Ok(Seq::empty())),
        }
    }
}

/// Evaluate a closure body in order; the last expression's value is the
/// result, and an empty body gives `()`.
pub open spec fn spec_eval_body(st: Seq<FrameV>, body: Seq<Dat<RtV>>, env: int, fuel: nat) -> (
    Seq<FrameV>,
    EvalOut,
)
    decreases fuel,
{
    if fuel == 0 {
        (st, Err(ErrV::DepthLimit))
    } else {
        let f = (fuel - 1) as nat;
        if body.len() == 0 {
            (st, Ok(Dat::Nil))
        } else {
            let (st1, r0) = spec_eval(st, body[0], env, f);
            match r0 {
                Err(e) => (st1, Err(e)),
                Ok(v) => if body.len() == 1 {
                    (st1, Ok(v))
                } else {
                    spec_eval_body(st1, body.subrange(1, body.len() as int), env, f)
                },
            }
        }
    }
}

/// Apply a callable to evaluated arguments: `eval` re-enters the evaluator
/// in the global frame, other primitives dispatch through their shapes, and
/// a closure binds its parameters in a new child of its defining frame and
/// evaluates its body there.
pub open spec fn spec_apply(st: Seq<FrameV>, fv: Dat<RtV>, args: Seq<Dat<RtV>>, fuel: nat) -> (
    Seq<FrameV>,
    EvalOut,
)
    decreases fuel,
{
    if fuel == 0 {
        (st, Err(ErrV::DepthLimit))
    } else {
        let f = (fuel - 1) as nat;
        match fv {
            Dat::Ext(RtV::Prim(PFunc::PEval)) => if args.len() != 1 {
                (st, Err(ErrV::ArgNumError))
            } else {
                spec_eval(st, args[0], 0, f)
            },
            Dat::Ext(RtV::Prim(p)) => (
                st,
                match crate::primitive::apply_prim_spec(p, args) {
                    Ok(v) => Ok(v),
                    Err(e) => Err(e.deep_view()),
                },
            ),
            Dat::Ext(RtV::Closure(c)) => {
                if args.len() < c.params.len() || (c.rest is None && args.len()
                    != c.params.len()) {
                    (st, Err(ErrV::ArgNumError))
                } else {
                    let frame = FrameV {
                        parent: Some(c.env),
                        binds: closure_binds(c.params, c.rest, args),
                    };
                    spec_eval_body(st.push(frame), c.body, st.len() as int, f)
                }
            },
            _ => (st, Err(ErrV::NotCallable)),
        }
    }
}

/// Quasiquote expansion at the given quotation depth: at depth one an
/// `unquote` operand is evaluated and substituted and an `unquote-splicing`
/// operand in head position must evaluate to a proper list that is spliced;
/// nested `quasiquote` raises the depth and deeper `unquote` forms are
/// rewritten back into quoted form with the depth lowered.
pub open spec fn spec_qq(st: Seq<FrameV>, d: Dat<RtV>, env: int, depth: nat, fuel: nat) -> (Seq<
    FrameV,
>, EvalOut)
    decreases fuel,
{
    if fuel == 0 {
        (st, Err(ErrV::DepthLimit))
    } else {
        let f = (fuel - 1) as nat;
        match d {
            Dat::Cons(h, t) => {
                if as_form2(d, "unquote"@) is Some {
                    let x = as_form2(d, "unquote"@).unwrap();
                    if depth == 1 {
                        spec_eval(st, x, env, f)
                    } else {
                        let (st1, xr) = spec_qq(st, x, env, (depth - 1) as nat, f);
                        match xr {
                            Err(e) => (st1, Err(e)),
                            Ok(xv) => (
                                st1,
                                Ok(
                                    Dat::Cons(
                                        Box::new(Dat::Sym("unquote"@)),
                                        Box::new(Dat::Cons(Box::new(xv), Box::new(Dat::Nil))),
                                    ),
                                ),
                            ),
                        }
                    }
                } else if as_form2(d, "quasiquote"@) is Some {
                    let x = as_form2(d, "quasiquote"@).unwrap();
                    if depth >= 0xFFFF_FFFF_FFFF_FFFF {
                        (st, Err(ErrV::DepthLimit))
                    } else {
                        let (st1, xr) = spec_qq(st, x, env, (depth + 1) as nat, f);
                        match xr {
                            Err(e) => (st1, Err(e)),
                            Ok(xv) => (
                                st1,
                                Ok(
                                    Dat::Cons(
                                        Box::new(Dat::Sym("quasiquote"@)),
                                        Box::new(Dat::Cons(Box::new(xv), Box::new(Dat::Nil))),
                                    ),
                                ),
                            ),
                        }
                    }
                } else if as_form2(*h, "unquote-splicing"@) is Some {
                    let y = as_form2(*h, "unquote-splicing"@).unwrap();
                    if depth == 1 {
                        let (st1, yr) = spec_eval(st, y, env, f);
                        match yr {
                            Err(e) => (st1, Err(e)),
                            Ok(yv) => {
                                if !vis_proper(yv) {
                                    (st1, Err(ErrV::NotList))
                                } else {
                                    let (st2, tr) = spec_qq(st1, *t, env, depth, f);
                                    match tr {
                                        Err(e) => (st2, Err(e)),
                                        Ok(tv) => (st2, Ok(crate::datum::concat_dat(yv, tv))),
                                    }
                                }
                            },
                        }
                    } else {
                        let (st1, yr) = spec_qq(st, y, env, (depth - 1) as nat, f);
                        match yr {
                            Err(e) => (st1, Err(e)),
                            Ok(yv) => {
                                let (st2, tr) = spec_qq(st1, *t, env, depth, f);
                                match tr {
                                    Err(e) => (st2, Err(e)),
                                    Ok(tv) => (
                                        st2,
                                        Ok(
                                            Dat::Cons(
                                                Box::new(
                                                    Dat::Cons(
                                                        Box::new(Dat::Sym("unquote-splicing"@)),
                                                        Box::new(
                                                            Dat::Cons(
                                                                Box::new(yv),
                                                                Box::new(Dat::Nil),
                                                            ),
                                                        ),
                                                    ),
                                                ),
                                                Box::new(tv),
                                            ),
                                        ),
                                    ),
                                }
                            },
                        }
                    }
                } else {
                    let (st1, hr) = spec_qq(st, *h, env, depth, f);
                    match hr {
                        Err(e) => (st1, Err(e)),
                        Ok(hv) => {
                            let (st2, tr) = spec_qq(st1, *t, env, depth, f);
                            match tr {
                                Err(e) => (st2, Err(e)),
                                Ok(tv) => (st2, Ok(Dat::Cons(Box::new(hv), Box::new(tv)))),
                            }
                        },
                    }
                }
            },
            _ => (st, Ok(d)),
        }
    }
}

} // verus!

verus! {

/// How an evaluation outcome is held against the specification: values
/// agree by image and are well formed for `n` frames; errors agree by image.
pub open spec fn outcome_matches(r: Result<Datum<RtData>, Error>, s: EvalOut, n: int) -> bool {
    match (r, s) {
        (Ok(d), Ok(v)) => rt_dat_view(d) == v && dv_wf(v, n),
        (Err(e), Err(ev)) => e.deep_view() == ev,
        _ => false,
    }
}

/// A store stays well formed when a frame with an existing parent and
/// well-formed bindings (counting the new frame) is pushed.
proof fn lemma_state_wf_push(st: Seq<FrameV>, f: FrameV)
    requires
        state_wf(st),
        f.parent matches Some(p) && 0 <= p < st.len(),
        binds_wf(f.binds, st.len() as int + 1),
    ensures
        state_wf(st.push(f)),
{
    let st2 = st.push(f);
    assert forall|i: int| 0 <= i < st2.len() implies #[trigger] frame_wf(st2[i], i, st2.len() as int) by {
        if i < st.len() {
            assert(frame_wf(st[i], i, st.len() as int));
            lemma_binds_wf_mono(st[i].binds, st.len() as int, st2.len() as int);
            assert(st2[i] == st[i]);
        } else {
            assert(st2[i] == f);
        }
    }
}

/// The bindings of a closure application are well formed when the arguments
/// are.
proof fn lemma_closure_binds_wf(
    params: Seq<Seq<char>>,
    rest: Option<Seq<char>>,
    args: Seq<Dat<RtV>>,
    n: int,
)
    requires
        dvs_wf(args, n),
        params.len() <= args.len(),
    ensures
        binds_wf(closure_binds(params, rest, args), n),
{
    let cb = closure_binds(params, rest, args);
    lemma_dvs_wf_skip(args, n, params.len() as int);
    lemma_list_of_wf(args.skip(params.len() as int), n);
    assert forall|k: int| 0 <= k < cb.len() implies dv_wf((#[trigger] cb[k]).1, n) by {
        if k < params.len() {
            assert(cb[k].1 == args[k]);
            lemma_dvs_wf_index(args, n, k);
        } else {
            assert(cb[k].1 == crate::primitive::list_of(args.skip(params.len() as int)));
        }
    }
    lemma_binds_wf_pointwise(cb, n);
}

/// A binding list whose every value is well formed is well formed.
proof fn lemma_binds_wf_pointwise(bv: Seq<(Seq<char>, Dat<RtV>)>, n: int)
    requires
        forall|k: int| 0 <= k < bv.len() ==> dv_wf((#[trigger] bv[k]).1, n),
    ensures
        binds_wf(bv, n),
    decreases bv,
{
    if bv.len() > 0 {
        let rest = bv.subrange(1, bv.len() as int);
        assert forall|k: int| 0 <= k < rest.len() implies dv_wf((#[trigger] rest[k]).1, n) by {
            assert(rest[k] == bv[k + 1]);
        }
        lemma_binds_wf_pointwise(rest, n);
    }
}

impl Runtime {
    /// Evaluate a datum in the given environment frame, spending one unit
    /// of fuel per recursion step. The result and the new store are exactly
    /// what the specification interpreter prescribes.
    pub fn eval(&mut self, d: &Datum<RtData>, env: usize, fuel: u64) -> (r: Result<
        Datum<RtData>,
        Error,
    >)
        requires
            old(self).wf(),
            env < old(self).view_spec().len(),
            dv_wf(rt_dat_view(*d), old(self).view_spec().len() as int),
        ensures
            final(self).wf(),
            old(self).view_spec().len() <= final(self).view_spec().len(),
            final(self).view_spec() == spec_eval(
                old(self).view_spec(),
                rt_dat_view(*d),
                env as int,
                fuel as nat,
            ).0,
            outcome_matches(
                r,
                spec_eval(old(self).view_spec(), rt_dat_view(*d), env as int, fuel as nat).1,
                final(self).view_spec().len() as int,
            ),
        decreases fuel,
    {
        let ghost st0 = self.view_spec();
        let ghost dv = rt_dat_view(*d);
        if fuel == 0 {
            return Err(Error::DepthLimit);
        }
        let f = fuel - 1;
        match d {
            Datum::Sym(name) => {
                match self.lookup(env, name) {
                    Some(v) => Ok(v),
                    None => Err(Error::UnboundVariable(name.clone())),
                }
            },
            Datum::Nil => Err(Error::NilEval),
            Datum::Cons(rc) => {
                let ghost hv = rdv(&rc.0);
                let ghost tv = rdv(&rc.1);
                proof {
                    assert(dv == Dat::Cons(Box::new(hv), Box::new(tv)));
                    assert(dv_wf(hv, st0.len() as int));
                    assert(dv_wf(tv, st0.len() as int));
                }
                match form_of_exec(&rc.0) {
                    Some(PrimSyntax::SynQuote) => {
                        match &rc.1 {
                            Datum::Cons(rc2) => {
                                proof {
                                    assert(tv == Dat::Cons(
                                        Box::new(rdv(&rc2.0)),
                                        Box::new(rdv(&rc2.1)),
                                    ));
                                }
                                match &rc2.1 {
                                    Datum::Nil => Ok(rc2.0.dup()),
                                    _ => Err(Error::ArgNumError),
                                }
                            },
                            _ => Err(Error::ArgNumError),
                        }
                    },
                    Some(PrimSyntax::SynIf) => self.eval_if(&rc.1, env, f),
                    Some(PrimSyntax::SynLambda) => self.eval_lambda(&rc.1, env),
                    Some(PrimSyntax::SynDefine) => self.eval_define(&rc.1, env, f),
                    Some(PrimSyntax::SynSet) => self.eval_set(&rc.1, env, f),
                    Some(PrimSyntax::SynQQuote) => {
                        match &rc.1 {
                            Datum::Cons(rc2) => {
                                proof {
                                    assert(tv == Dat::Cons(
                                        Box::new(rdv(&rc2.0)),
                                        Box::new(rdv(&rc2.1)),
                                    ));
                                }
                                match &rc2.1 {
                                    Datum::Nil => self.qq(&rc2.0, env, 1, f),
                                    _ => Err(Error::ArgNumError),
                                }
                            },
                            _ => Err(Error::ArgNumError),
                        }
                    },
                    Some(PrimSyntax::SynUnquote) => Err(Error::TypeError),
                    None => {
                        if !is_proper(&rc.1) {
                            return Err(Error::NotList);
                        }
                        let hr = self.eval(&rc.0, env, f);
                        let fv = match hr {
                            Err(e) => {
                                return Err(e);
                            },
                            Ok(fv) => fv,
                        };
                        proof {
                            lemma_dv_wf_mono(tv, st0.len() as int, self.view_spec().len() as int);
                        }
                        let ar = self.eval_chain(&rc.1, env, f);
                        let args = match ar {
                            Err(e) => {
                                return Err(e);
                            },
                            Ok(args) => args,
                        };
                        proof {
                            lemma_dv_wf_mono(
                                rt_dat_view(fv),
                                spec_eval(st0, hv, env as int, f as nat).0.len() as int,
                                self.view_spec().len() as int,
                            );
                        }
                        self.apply(fv, args, f)
                    },
                }
            },
            _ => {
                let r0 = d.dup();
                Ok(r0)
            },
        }
    }

    /// `if`, as the specification prescribes.
    fn eval_if(&mut self, t: &Datum<RtData>, env: usize, fuel: u64) -> (r: Result<
        Datum<RtData>,
        Error,
    >)
        requires
            old(self).wf(),
            env < old(self).view_spec().len(),
            dv_wf(rt_dat_view(*t), old(self).view_spec().len() as int),
        ensures
            final(self).wf(),
            old(self).view_spec().len() <= final(self).view_spec().len(),
            final(self).view_spec() == spec_if(
                old(self).view_spec(),
                rt_dat_view(*t),
                env as int,
                fuel as nat,
            ).0,
            outcome_matches(
                r,
                spec_if(old(self).view_spec(), rt_dat_view(*t), env as int, fuel as nat).1,
                final(self).view_spec().len() as int,
            ),
        decreases fuel,
    {
        if fuel == 0 {
            return Err(Error::DepthLimit);
        }
        let f = fuel - 1;
        let ghost st0 = self.view_spec();
        match t {
            Datum::Cons(rc1) => {
                proof {
                    assert(rt_dat_view(*t) == Dat::Cons(
                        Box::new(rdv(&rc1.0)),
                        Box::new(rdv(&rc1.1)),
                    ));
                }
                match &rc1.1 {
                    Datum::Cons(rc2) => {
                        proof {
                            assert(rdv(&rc1.1) == Dat::Cons(
                                Box::new(rdv(&rc2.0)),
                                Box::new(rdv(&rc2.1)),
                            ));
                        }
                        let ghost rest2v = rdv(&rc2.1);
                        proof {
                            assert(dv_wf(rdv(&rc1.0), st0.len() as int));
                            assert(dv_wf(rdv(&rc1.1), st0.len() as int));
                            assert(dv_wf(rdv(&rc2.0), st0.len() as int));
                            assert(dv_wf(rdv(&rc2.1), st0.len() as int));
                            match &rc2.1 {
                                Datum::Cons(rc3) => {
                                    assert(rest2v == Dat::Cons(
                                        Box::new(rdv(&rc3.0)),
                                        Box::new(rdv(&rc3.1)),
                                    ));
                                    assert(dv_wf(rdv(&rc3.0), st0.len() as int));
                                },
                                _ => {},
                            }
                        }
                        let shape_ok = match &rc2.1 {
                            Datum::Nil => true,
                            Datum::Cons(rc3) => matches!(&rc3.1, Datum::Nil),
                            _ => false,
                        };
                        if !shape_ok {
                            return Err(Error::ArgNumError);
                        }
                        let cr = self.eval(&rc1.0, env, f);
                        let cv = match cr {
                            Err(e) => {
                                return Err(e);
                            },
                            Ok(cv) => cv,
                        };
                        let truthy_now = match &cv {
                            Datum::Bool(b) => *b,
                            _ => true,
                        };
                        proof {
                            assert(truthy_now == truthy(rt_dat_view(cv)));
                            lemma_dv_wf_mono(
                                rdv(&rc2.0),
                                st0.len() as int,
                                self.view_spec().len() as int,
                            );
                        }
                        if truthy_now {
                            self.eval(&rc2.0, env, f)
                        } else {
                            match &rc2.1 {
                                Datum::Cons(rc3) => {
                                    proof {
                                        lemma_dv_wf_mono(
                                            rdv(&rc3.0),
                                            st0.len() as int,
                                            self.view_spec().len() as int,
                                        );
                                    }
                                    self.eval(&rc3.0, env, f)
                                },
                                _ => Ok(Datum::Nil),
                            }
                        }
                    },
                    _ => Err(Error::ArgNumError),
                }
            },
            _ => Err(Error::ArgNumError),
        }
    }

    /// `lambda`, capturing the defining environment.
    fn eval_lambda(&mut self, t: &Datum<RtData>, env: usize) -> (r: Result<Datum<RtData>, Error>)
        requires
            old(self).wf(),
            env < old(self).view_spec().len(),
            dv_wf(rt_dat_view(*t), old(self).view_spec().len() as int),
        ensures
            final(self).wf(),
            final(self).view_spec() == old(self).view_spec(),
            outcome_matches(
                r,
                spec_lambda(rt_dat_view(*t), env as int),
                final(self).view_spec().len() as int,
            ),
    {
        let ghost n = self.view_spec().len() as int;
        match t {
            Datum::Cons(rc) => {
                proof {
                    assert(rt_dat_view(*t) == Dat::Cons(
                        Box::new(rdv(&rc.0)),
                        Box::new(rdv(&rc.1)),
                    ));
                }
                if !is_proper(&rc.1) {
                    return Err(Error::NotList);
                }
                match parse_params(&rc.0) {
                    None => Err(Error::TypeError),
                    Some(pr) => {
                        let ghost pv0 = pr.0.deep_view();
                        let ghost pv1 = pr.1.deep_view();
                        let body = collect_elems(&rc.1);
                        let ghost bodyv = views_of(body@);
                        let c = ClosureData { params: pr.0, rest: pr.1, body, env };
                        let rcc = std::rc::Rc::new(c);
                        let val = Datum::Ext(RtData::Closure(rcc));
                        proof {
                            let cv = spec_lambda(rt_dat_view(*t), env as int)->Ok_0;
                            assert(rcc.params.deep_view() == pv0);
                            assert(rcc.rest.deep_view() == pv1);
                            assert(views_of(rcc.body@) == bodyv);
                            assert(rcc.env == env);
                            assert(rt_view(RtData::Closure(rcc)) == RtV::Closure(
                                ClosV { params: pv0, rest: pv1, body: bodyv, env: env as int },
                            ));
                            assert(rt_dat_view(val) == Dat::Ext(
                                RtV::Closure(
                                    ClosV { params: pv0, rest: pv1, body: bodyv, env: env as int },
                                ),
                            ));
                            assert(cv == Dat::Ext(
                                RtV::Closure(
                                    ClosV {
                                        params: parse_params_spec(rdv(&rc.0))->Some_0.0,
                                        rest: parse_params_spec(rdv(&rc.0))->Some_0.1,
                                        body: velems(rdv(&rc.1)),
                                        env: env as int,
                                    },
                                ),
                            ));
                            assert(rt_dat_view(val) == cv);
                            assert(dv_wf(rdv(&rc.1), n));
                            lemma_velems_wf(rdv(&rc.1), n);
                            assert(dv_wf(cv, n));
                        }
                        Ok(val)
                    },
                }
            },
            _ => Err(Error::ArgNumError),
        }
    }

    /// `define`, in both its plain and function-shorthand forms.
    fn eval_define(&mut self, t: &Datum<RtData>, env: usize, fuel: u64) -> (r: Result<
        Datum<RtData>,
        Error,
    >)
        requires
            old(self).wf(),
            env < old(self).view_spec().len(),
            dv_wf(rt_dat_view(*t), old(self).view_spec().len() as int),
        ensures
            final(self).wf(),
            old(self).view_spec().len() <= final(self).view_spec().len(),
            final(self).view_spec() == spec_define(
                old(self).view_spec(),
                rt_dat_view(*t),
                env as int,
                fuel as nat,
            ).0,
            outcome_matches(
                r,
                spec_define(old(self).view_spec(), rt_dat_view(*t), env as int, fuel as nat).1,
                final(self).view_spec().len() as int,
            ),
        decreases fuel,
    {
        if fuel == 0 {
            return Err(Error::DepthLimit);
        }
        let f = fuel - 1;
        let ghost st0 = self.view_spec();
        match t {
            Datum::Cons(rc) => {
                proof {
                    assert(rt_dat_view(*t) == Dat::Cons(
                        Box::new(rdv(&rc.0)),
                        Box::new(rdv(&rc.1)),
                    ));
                }
                match &rc.0 {
                    Datum::Sym(name) => {
                        match &rc.1 {
                            Datum::Cons(rc2) => {
                                proof {
                                    assert(rdv(&rc.1) == Dat::Cons(
                                        Box::new(rdv(&rc2.0)),
                                        Box::new(rdv(&rc2.1)),
                                    ));
                                    assert(dv_wf(rdv(&rc.1), st0.len() as int));
                                    assert(dv_wf(rdv(&rc2.0), st0.len() as int));
                                }
                                match &rc2.1 {
                                    Datum::Nil => {
                                        let vr = self.eval(&rc2.0, env, f);
                                        let v = match vr {
                                            Err(e) => {
                                                return Err(e);
                                            },
                                            Ok(v) => v,
                                        };
                                        self.define(env, name, v);
                                        Ok(Datum::Nil)
                                    },
                                    _ => Err(Error::ArgNumError),
                                }
                            },
                            _ => Err(Error::ArgNumError),
                        }
                    },
                    Datum::Cons(rcf) => {
                        proof {
                            assert(rdv(&rc.0) == Dat::Cons(
                                Box::new(rdv(&rcf.0)),
                                Box::new(rdv(&rcf.1)),
                            ));
                        }
                        match &rcf.0 {
                            Datum::Sym(name) => {
                                if !is_proper(&rc.1) {
                                    return Err(Error::NotList);
                                }
                                match parse_params(&rcf.1) {
                                    None => Err(Error::TypeError),
                                    Some(pr) => {
                                        let ghost pv0 = pr.0.deep_view();
                                        let ghost pv1 = pr.1.deep_view();
                                        let body = collect_elems(&rc.1);
                                        let ghost bodyv = views_of(body@);
                                        let c = ClosureData {
                                            params: pr.0,
                                            rest: pr.1,
                                            body,
                                            env,
                                        };
                                        let rcc = std::rc::Rc::new(c);
                                        let val = Datum::Ext(RtData::Closure(rcc));
                                        proof {
                                            assert(rcc.params.deep_view() == pv0);
                                            assert(rcc.rest.deep_view() == pv1);
                                            assert(views_of(rcc.body@) == bodyv);
                                            assert(rcc.env == env);
                                            assert(rt_view(RtData::Closure(rcc))
                                                == RtV::Closure(
                                                ClosV {
                                                    params: pv0,
                                                    rest: pv1,
                                                    body: bodyv,
                                                    env: env as int,
                                                },
                                            ));
                                            assert(rt_dat_view(val) == Dat::Ext(
                                                RtV::Closure(
                                                    ClosV {
                                                        params: pv0,
                                                        rest: pv1,
                                                        body: bodyv,
                                                        env: env as int,
                                                    },
                                                ),
                                            ));
                                            assert(dv_wf(rdv(&rc.1), st0.len() as int));
                                            lemma_velems_wf(
                                                rdv(&rc.1),
                                                st0.len() as int,
                                            );
                                            assert(dv_wf(rt_dat_view(val), st0.len() as int));
                                        }
                                        self.define(env, name, val);
                                        Ok(Datum::Nil)
                                    },
                                }
                            },
                            _ => Err(Error::TypeError),
                        }
                    },
                    _ => Err(Error::TypeError),
                }
            },
            _ => Err(Error::ArgNumError),
        }
    }

    /// `set!`, rebinding an existing variable.
    fn eval_set(&mut self, t: &Datum<RtData>, env: usize, fuel: u64) -> (r: Result<
        Datum<RtData>,
        Error,
    >)
        requires
            old(self).wf(),
            env < old(self).view_spec().len(),
            dv_wf(rt_dat_view(*t), old(self).view_spec().len() as int),
        ensures
            final(self).wf(),
            old(self).view_spec().len() <= final(self).view_spec().len(),
            final(self).view_spec() == spec_set(
                old(self).view_spec(),
                rt_dat_view(*t),
                env as int,
                fuel as nat,
            ).0,
            outcome_matches(
                r,
                spec_set(old(self).view_spec(), rt_dat_view(*t), env as int, fuel as nat).1,
                final(self).view_spec().len() as int,
            ),
        decreases fuel,
    {
        if fuel == 0 {
            return Err(Error::DepthLimit);
        }
        let f = fuel - 1;
        match t {
            Datum::Cons(rc) => {
                proof {
                    assert(rt_dat_view(*t) == Dat::Cons(
                        Box::new(rdv(&rc.0)),
                        Box::new(rdv(&rc.1)),
                    ));
                }
                match (&rc.0, &rc.1) {
                    (Datum::Sym(name), Datum::Cons(rc2)) => {
                        proof {
                            assert(rdv(&rc.1) == Dat::Cons(
                                Box::new(rdv(&rc2.0)),
                                Box::new(rdv(&rc2.1)),
                            ));
                            assert(dv_wf(rdv(&rc.1), old(self).view_spec().len() as int));
                            assert(dv_wf(rdv(&rc2.0), old(self).view_spec().len() as int));
                        }
                        match &rc2.1 {
                            Datum::Nil => {
                                let vr = self.eval(&rc2.0, env, f);
                                let v = match vr {
                                    Err(e) => {
                                        return Err(e);
                                    },
                                    Ok(v) => v,
                                };
                                match self.assign(env, name, v) {
                                    Ok(()) => Ok(Datum::Nil),
                                    Err(e) => Err(e),
                                }
                            },
                            _ => Err(Error::ArgNumError),
                        }
                    },
                    _ => Err(Error::ArgNumError),
                }
            },
            _ => Err(Error::ArgNumError),
        }
    }

    /// Evaluate an argument chain left to right.
    fn eval_chain(&mut self, t: &Datum<RtData>, env: usize, fuel: u64) -> (r: Result<
        Vec<Datum<RtData>>,
        Error,
    >)
        requires
            old(self).wf(),
            env < old(self).view_spec().len(),
            dv_wf(rt_dat_view(*t), old(self).view_spec().len() as int),
        ensures
            final(self).wf(),
            old(self).view_spec().len() <= final(self).view_spec().len(),
            final(self).view_spec() == spec_eval_chain(
                old(self).view_spec(),
                rt_dat_view(*t),
                env as int,
                fuel as nat,
            ).0,
            match (
                r,
                spec_eval_chain(old(self).view_spec(), rt_dat_view(*t), env as int, fuel as nat).1,
            ) {
                (Ok(vs), Ok(ss)) => views_of(vs@) == ss && dvs_wf(
                    ss,
                    final(self).view_spec().len() as int,
                ),
                (Err(e), Err(es)) => e.deep_view() == es,
                _ => false,
            },
        decreases fuel,
    {
        if fuel == 0 {
            return Err(Error::DepthLimit);
        }
        let f = fuel - 1;
        let ghost st0 = self.view_spec();
        match t {
            Datum::Cons(rc) => {
                let hr = self.eval(&rc.0, env, f);
                let v = match hr {
                    Err(e) => {
                        return Err(e);
                    },
                    Ok(v) => v,
                };
                proof {
                    lemma_dv_wf_mono(
                        rdv(&rc.1),
                        st0.len() as int,
                        self.view_spec().len() as int,
                    );
                }
                let rr = self.eval_chain(&rc.1, env, f);
                let mut vs = match rr {
                    Err(e) => {
                        return Err(e);
                    },
                    Ok(vs) => vs,
                };
                let ghost vs0 = vs@;
                vs.insert(0, v);
                proof {
                    let ss = spec_eval_chain(
                        spec_eval(st0, rdv(&rc.0), env as int, f as nat).0,
                        rdv(&rc.1),
                        env as int,
                        f as nat,
                    ).1->Ok_0;
                    assert(vs@ == vs0.insert(0, v));
                    assert forall|k: int| 0 <= k < views_of(vs@).len() implies views_of(vs@)[k]
                        == (seq![rt_dat_view(v)] + ss)[k] by {
                        if k == 0 {
                            assert(vs@[0] == v);
                        } else {
                            assert(vs@[k] == vs0[k - 1]);
                            assert(views_of(vs0)[k - 1] == rt_dat_view(vs0[k - 1]));
                        }
                    }
                    assert(views_of(vs@) =~= seq![rt_dat_view(v)] + ss);
                    lemma_dv_wf_mono(
                        rt_dat_view(v),
                        spec_eval(st0, rdv(&rc.0), env as int, f as nat).0.len() as int,
                        self.view_spec().len() as int,
                    );
                    lemma_dvs_wf_cons(rt_dat_view(v), ss, self.view_spec().len() as int);
                }
                Ok(vs)
            },
            _ => {
                let vs: Vec<Datum<RtData>> = Vec::new();
                proof {
                    assert(views_of(vs@) =~= Seq::<Dat<RtV>>::empty());
                }
                Ok(vs)
            },
        }
    }

    /// Evaluate a closure body from index `i` on; the last value is the
    /// result.
    fn eval_body(&mut self, body: &Vec<Datum<RtData>>, i: usize, env: usize, fuel: u64) -> (r:
        Result<Datum<RtData>, Error>)
        requires
            old(self).wf(),
            env < old(self).view_spec().len(),
            i <= body@.len(),
            dvs_wf(views_of(body@).skip(i as int), old(self).view_spec().len() as int),
        ensures
            final(self).wf(),
            old(self).view_spec().len() <= final(self).view_spec().len(),
            final(self).view_spec() == spec_eval_body(
                old(self).view_spec(),
                views_of(body@).skip(i as int),
                env as int,
                fuel as nat,
            ).0,
            outcome_matches(
                r,
                spec_eval_body(
                    old(self).view_spec(),
                    views_of(body@).skip(i as int),
                    env as int,
                    fuel as nat,
                ).1,
                final(self).view_spec().len() as int,
            ),
        decreases fuel,
    {
        if fuel == 0 {
            return Err(Error::DepthLimit);
        }
        let f = fuel - 1;
        let ghost st0 = self.view_spec();
        let ghost vs = views_of(body@).skip(i as int);
        if i == body.len() {
            return Ok(Datum::Nil);
        }
        proof {
            assert(vs[0] == views_of(body@)[i as int]);
            assert(views_of(body@)[i as int] == rt_dat_view(body@[i as int]));
        }
        let r0 = self.eval(&body[i], env, f);
        let v = match r0 {
            Err(e) => {
                return Err(e);
            },
            Ok(v) => v,
        };
        if i + 1 == body.len() {
            proof {
                assert(vs.len() == 1);
            }
            return Ok(v);
        }
        proof {
            assert(views_of(body@).skip(i + 1 as int) =~= vs.subrange(1, vs.len() as int));
            assert(dvs_wf(vs.subrange(1, vs.len() as int), st0.len() as int));
            lemma_dvs_wf_mono(
                views_of(body@).skip(i + 1 as int),
                st0.len() as int,
                self.view_spec().len() as int,
            );
        }
        self.eval_body(body, i + 1, env, f)
    }

    /// Apply a callable to evaluated arguments.
    fn apply(&mut self, fv: Datum<RtData>, args: Vec<Datum<RtData>>, fuel: u64) -> (r: Result<
        Datum<RtData>,
        Error,
    >)
        requires
            old(self).wf(),
            dv_wf(rt_dat_view(fv), old(self).view_spec().len() as int),
            dvs_wf(views_of(args@), old(self).view_spec().len() as int),
        ensures
            final(self).wf(),
            old(self).view_spec().len() <= final(self).view_spec().len(),
            final(self).view_spec() == spec_apply(
                old(self).view_spec(),
                rt_dat_view(fv),
                views_of(args@),
                fuel as nat,
            ).0,
            outcome_matches(
                r,
                spec_apply(old(self).view_spec(), rt_dat_view(fv), views_of(args@), fuel as nat).1,
                final(self).view_spec().len() as int,
            ),
        decreases fuel,
    {
        if fuel == 0 {
            return Err(Error::DepthLimit);
        }
        let f = fuel - 1;
        let ghost st0 = self.view_spec();
        let ghost avs = views_of(args@);
        match &fv {
            Datum::Ext(RtData::Prim(p0)) => {
                let p = *p0;
                proof {
                    assert(fv is Ext);
                    assert(fv->Ext_0 is Prim);
                    assert(fv->Ext_0->Prim_0 == p);
                    assert(rt_view(fv->Ext_0) == RtV::Prim(p));
                    assert(rt_dat_view(fv) == Dat::<RtV>::Ext(RtV::Prim(p)));
                }
                if matches!(p, PFunc::PEval) {
                    if args.len() != 1 {
                        return Err(Error::ArgNumError);
                    }
                    proof {
                        assert(avs[0] == rt_dat_view(args@[0]));
                        lemma_dvs_wf_index(avs, st0.len() as int, 0);
                    }
                    self.eval(&args[0], 0, f)
                } else {
                    proof {
                        crate::runtime::lemma_apply_prim_wf(p, avs, st0.len() as int);
                    }
                    match crate::primitive::apply_prim(p, args) {
                        Ok(v) => Ok(v),
                        Err(e) => Err(e),
                    }
                }
            },
            Datum::Ext(RtData::Closure(c)) => {
                let ghost cv = rdv(&fv)->Ext_0;
                let ghost clv = cv->Closure_0;
                proof {
                    assert(rt_dat_view(fv) == Dat::Ext(cv));
                    assert(cv == rt_view(RtData::Closure(*c)));
                    assert(clv.params == c.params.deep_view());
                    assert(clv.params.len() == c.params@.len());
                    assert(clv.rest is None <==> c.rest is None);
                    assert(clv.body == views_of(c.body@));
                    assert(clv.env == c.env as int);
                }
                let nparams = c.params.len();
                if args.len() < nparams || (matches!(c.rest, Option::None) && args.len()
                    != nparams) {
                    return Err(Error::ArgNumError);
                }
                let mut binds: Vec<(String, Datum<RtData>)> = Vec::new();
                let mut k: usize = 0;
                while k < nparams
                    invariant
                        binds@.len() == k,
                        0 <= k <= nparams,
                        nparams == c.params@.len(),
                        nparams <= args@.len(),
                        forall|j: int|
                            0 <= j < k ==> (#[trigger] binds@[j]).0@ == c.params@[j]@
                                && binds@[j].1 == args@[j],
                    decreases nparams - k,
                {
                    binds.push((c.params[k].clone(), args[k].dup()));
                    k = k + 1;
                }
                let rest_list = crate::primitive::build_list(&args, nparams);
                match &c.rest {
                    Some(rn) => {
                        binds.push((rn.clone(), rest_list));
                    },
                    None => {},
                }
                proof {
                    assert forall|j: int| 0 <= j < binds_view(binds@).len() implies
                        #[trigger] binds_view(binds@)[j] == closure_binds(
                        clv.params,
                        clv.rest,
                        avs,
                    )[j] by {
                        assert(binds_view(binds@)[j] == (binds@[j].0@, rt_dat_view(binds@[j].1)));
                        if j < c.params@.len() {
                            assert(binds@[j].1 == args@[j]);
                            assert(clv.params[j] == c.params@[j]@);
                            assert(avs[j] == rt_dat_view(args@[j]));
                        } else {
                            assert(avs.skip(clv.params.len() as int) =~= views_of(
                                args@.skip(c.params@.len() as int),
                            )) by {
                                assert forall|m: int|
                                    0 <= m < avs.skip(clv.params.len() as int).len() implies
                                    avs.skip(clv.params.len() as int)[m] == views_of(
                                    args@.skip(c.params@.len() as int),
                                )[m] by {
                                    assert(avs.skip(clv.params.len() as int)[m] == avs[m
                                        + c.params@.len()]);
                                }
                            }
                        }
                    }
                    assert(binds_view(binds@) =~= closure_binds(clv.params, clv.rest, avs));
                    lemma_closure_binds_wf(clv.params, clv.rest, avs, st0.len() as int);
                    lemma_binds_wf_mono(
                        closure_binds(clv.params, clv.rest, avs),
                        st0.len() as int,
                        st0.len() as int + 1,
                    );
                }
                let parent = c.env;
                proof {
                    assert(0 <= clv.env < st0.len());
                }
                let fr = Frame { parent: Some(parent), binds };
                let new_env = self.push_frame(fr);
                proof {
                    assert(self.view_spec() =~= st0.push(
                        FrameV {
                            parent: Some(clv.env),
                            binds: closure_binds(clv.params, clv.rest, avs),
                        },
                    ));
                    lemma_state_wf_push(
                        st0,
                        FrameV {
                            parent: Some(clv.env),
                            binds: closure_binds(clv.params, clv.rest, avs),
                        },
                    );
                    assert(views_of(c.body@).skip(0) =~= views_of(c.body@));
                    assert(clv.body == views_of(c.body@));
                    lemma_dvs_wf_mono(clv.body, st0.len() as int, st0.len() as int + 1);
                }
                self.eval_body(&c.body, 0, new_env, f)
            },
            _ => Err(Error::NotCallable),
        }
    }

    /// Push a frame, returning its index.
    fn push_frame(&mut self, fr: Frame) -> (r: usize)
        ensures
            final(self).view_spec() =~= old(self).view_spec().push(frame_view(fr)),
            r == old(self).view_spec().len(),
            final(self).view_spec().len() == old(self).view_spec().len() + 1,
    {
        let r = self.frames.len();
        self.frames.push(fr);
        proof {
            assert(frames_view(self.frames@) =~= frames_view(old(self).frames@).push(
                frame_view(fr),
            ));
        }
        r
    }

    /// Quasiquote expansion at the given depth.
    fn qq(&mut self, d: &Datum<RtData>, env: usize, depth: u64, fuel: u64) -> (r: Result<
        Datum<RtData>,
        Error,
    >)
        requires
            old(self).wf(),
            env < old(self).view_spec().len(),
            depth >= 1,
            dv_wf(rt_dat_view(*d), old(self).view_spec().len() as int),
        ensures
            final(self).wf(),
            old(self).view_spec().len() <= final(self).view_spec().len(),
            final(self).view_spec() == spec_qq(
                old(self).view_spec(),
                rt_dat_view(*d),
                env as int,
                depth as nat,
                fuel as nat,
            ).0,
            outcome_matches(
                r,
                spec_qq(
                    old(self).view_spec(),
                    rt_dat_view(*d),
                    env as int,
                    depth as nat,
                    fuel as nat,
                ).1,
                final(self).view_spec().len() as int,
            ),
        decreases fuel,
    {
        if fuel == 0 {
            return Err(Error::DepthLimit);
        }
        let f = fuel - 1;
        let ghost st0 = self.view_spec();
        let ghost dv = rt_dat_view(*d);
        match d {
            Datum::Cons(rc) => {
                let ghost hv = rdv(&rc.0);
                let ghost tv = rdv(&rc.1);
                proof {
                    assert(dv == Dat::Cons(Box::new(hv), Box::new(tv)));
                    assert(dv_wf(hv, st0.len() as int));
                    assert(dv_wf(tv, st0.len() as int));
                }
                if let Some(x) = form2_operand(d, 0) {
                    proof {
                        assert(as_form2(dv, "unquote"@) == Some(rt_dat_view(x)));
                        assert(dv == Dat::Cons(
                            Box::new(Dat::Sym("unquote"@)),
                            Box::new(
                                Dat::Cons(Box::new(rt_dat_view(x)), Box::new(Dat::Nil)),
                            ),
                        ));
                        assert(dv_wf(*(dv->Cons_1), st0.len() as int));
                        assert(dv_wf(*(dv->Cons_1->Cons_0), st0.len() as int));
                        assert(rt_dat_view(x) == *(dv->Cons_1->Cons_0));
                        assert(dv_wf(rt_dat_view(x), st0.len() as int));
                    }
                    if depth == 1 {
                        self.eval(&x, env, f)
                    } else {
                        let xr = self.qq(&x, env, depth - 1, f);
                        match xr {
                            Err(e) => Err(e),
                            Ok(xv) => {
                                let ghost xw = rt_dat_view(xv);
                                let r2 = list2(Datum::Sym("unquote".to_owned()), xv);
                                proof {
                                    let n2 = self.view_spec().len() as int;
                                    lemma_wf_cons(xw, Dat::Nil, n2);
                                    lemma_wf_cons(
                                        Dat::Sym("unquote"@),
                                        Dat::Cons(Box::new(xw), Box::new(Dat::Nil)),
                                        n2,
                                    );
                                    assert(dv_wf(rt_dat_view(r2), n2));
                                }
                                Ok(r2)
                            },
                        }
                    }
                } else if let Some(x) = form2_operand(d, 1) {
                    proof {
                        assert(as_form2(dv, "quasiquote"@) == Some(rt_dat_view(x)));
                        assert(dv == Dat::Cons(
                            Box::new(Dat::Sym("quasiquote"@)),
                            Box::new(
                                Dat::Cons(Box::new(rt_dat_view(x)), Box::new(Dat::Nil)),
                            ),
                        ));
                        assert(dv_wf(*(dv->Cons_1), st0.len() as int));
                        assert(dv_wf(*(dv->Cons_1->Cons_0), st0.len() as int));
                        assert(rt_dat_view(x) == *(dv->Cons_1->Cons_0));
                        assert(dv_wf(rt_dat_view(x), st0.len() as int));
                    }
                    if depth >= 0xFFFF_FFFF_FFFF_FFFFu64 {
                        Err(Error::DepthLimit)
                    } else {
                        let xr = self.qq(&x, env, depth + 1, f);
                        match xr {
                            Err(e) => Err(e),
                            Ok(xv) => {
                                let ghost xw = rt_dat_view(xv);
                                let r2 = list2(Datum::Sym("quasiquote".to_owned()), xv);
                                proof {
                                    let n2 = self.view_spec().len() as int;
                                    lemma_wf_cons(xw, Dat::Nil, n2);
                                    lemma_wf_cons(
                                        Dat::Sym("quasiquote"@),
                                        Dat::Cons(Box::new(xw), Box::new(Dat::Nil)),
                                        n2,
                                    );
                                    assert(dv_wf(rt_dat_view(r2), n2));
                                }
                                Ok(r2)
                            },
                        }
                    }
                } else if let Some(y) = form2_operand(&rc.0, 2) {
                    proof {
                        assert(as_form2(hv, "unquote-splicing"@) == Some(rt_dat_view(y)));
                        assert(hv == Dat::Cons(
                            Box::new(Dat::Sym("unquote-splicing"@)),
                            Box::new(
                                Dat::Cons(Box::new(rt_dat_view(y)), Box::new(Dat::Nil)),
                            ),
                        ));
                        assert(dv_wf(hv, st0.len() as int));
                        assert(dv_wf(*(hv->Cons_1), st0.len() as int));
                        assert(dv_wf(*(hv->Cons_1->Cons_0), st0.len() as int));
                        assert(rt_dat_view(y) == *(hv->Cons_1->Cons_0));
                        assert(dv_wf(rt_dat_view(y), st0.len() as int));
                        assert(as_form2(dv, "unquote"@) is None);
                        assert(as_form2(dv, "quasiquote"@) is None);
                    }
                    if depth == 1 {
                        let yr = self.eval(&y, env, f);
                        match yr {
                            Err(e) => Err(e),
                            Ok(yv) => {
                                if !is_proper(&yv) {
                                    return Err(Error::NotList);
                                }
                                proof {
                                    lemma_dv_wf_mono(
                                        tv,
                                        st0.len() as int,
                                        self.view_spec().len() as int,
                                    );
                                }
                                let tr = self.qq(&rc.1, env, depth, f);
                                match tr {
                                    Err(e) => Err(e),
                                    Ok(tvv) => {
                                        proof {
                                            lemma_dv_wf_mono(
                                                rt_dat_view(yv),
                                                spec_eval(
                                                    st0,
                                                    rt_dat_view(y),
                                                    env as int,
                                                    f as nat,
                                                ).0.len() as int,
                                                self.view_spec().len() as int,
                                            );
                                            lemma_concat_wf(
                                                rt_dat_view(yv),
                                                rt_dat_view(tvv),
                                                self.view_spec().len() as int,
                                            );
                                        }
                                        let ghost yvw = rt_dat_view(yv);
                                        let ghost tvw = rt_dat_view(tvv);
                                        proof {
                                            lemma_views_agree(&yv);
                                            lemma_views_agree(&tvv);
                                            lemma_proper_iff(&yv);
                                        }
                                        match crate::datum::concat(yv, tvv) {
                                            Ok(res) => {
                                                proof {
                                                    lemma_views_agree(&res);
                                                    assert(rt_dat_view(res)
                                                        == crate::datum::concat_dat(yvw, tvw));
                                                }
                                                Ok(res)
                                            },
                                            Err(_) => {
                                                proof {
                                                    assert(false);
                                                }
                                                Err(Error::NotList)
                                            },
                                        }
                                    },
                                }
                            },
                        }
                    } else {
                        let yr = self.qq(&y, env, depth - 1, f);
                        match yr {
                            Err(e) => Err(e),
                            Ok(yv) => {
                                proof {
                                    lemma_dv_wf_mono(
                                        tv,
                                        st0.len() as int,
                                        self.view_spec().len() as int,
                                    );
                                }
                                let tr = self.qq(&rc.1, env, depth, f);
                                match tr {
                                    Err(e) => Err(e),
                                    Ok(tvv) => {
                                        proof {
                                            lemma_dv_wf_mono(
                                                rt_dat_view(yv),
                                                spec_qq(
                                                    st0,
                                                    *(hv->Cons_1->Cons_0),
                                                    env as int,
                                                    (depth - 1) as nat,
                                                    f as nat,
                                                ).0.len() as int,
                                                self.view_spec().len() as int,
                                            );
                                        }
                                        let ghost yw = rt_dat_view(yv);
                                        let head = list2(
                                            Datum::Sym("unquote-splicing".to_owned()),
                                            yv,
                                        );
                                        let ghost hw = rt_dat_view(head);
                                        let ghost tw = rt_dat_view(tvv);
                                        let res = crate::datum::cons(head, tvv);
                                        proof {
                                            let n2 = self.view_spec().len() as int;
                                            lemma_wf_cons(yw, Dat::Nil, n2);
                                            lemma_wf_cons(
                                                Dat::Sym("unquote-splicing"@),
                                                Dat::Cons(Box::new(yw), Box::new(Dat::Nil)),
                                                n2,
                                            );
                                            lemma_wf_cons(hw, tw, n2);
                                            assert(rt_dat_view(res) == Dat::Cons(
                                                Box::new(hw),
                                                Box::new(tw),
                                            ));
                                            assert(dv_wf(rt_dat_view(res), n2));
                                        }
                                        Ok(res)
                                    },
                                }
                            },
                        }
                    }
                } else {
                    proof {
                        assert(as_form2(dv, "unquote"@) is None);
                        assert(as_form2(dv, "quasiquote"@) is None);
                        assert(as_form2(hv, "unquote-splicing"@) is None);
                    }
                    let hr = self.qq(&rc.0, env, depth, f);
                    match hr {
                        Err(e) => Err(e),
                        Ok(hvv) => {
                            proof {
                                lemma_dv_wf_mono(
                                    tv,
                                    st0.len() as int,
                                    self.view_spec().len() as int,
                                );
                            }
                            let tr = self.qq(&rc.1, env, depth, f);
                            match tr {
                                Err(e) => Err(e),
                                Ok(tvv) => {
                                    proof {
                                        lemma_dv_wf_mono(
                                            rt_dat_view(hvv),
                                            spec_qq(
                                                st0,
                                                hv,
                                                env as int,
                                                depth as nat,
                                                f as nat,
                                            ).0.len() as int,
                                            self.view_spec().len() as int,
                                        );
                                    }
                                    let ghost hw = rt_dat_view(hvv);
                                    let ghost tw = rt_dat_view(tvv);
                                    let res = crate::datum::cons(hvv, tvv);
                                    proof {
                                        let n2 = self.view_spec().len() as int;
                                        lemma_wf_cons(hw, tw, n2);
                                        assert(rt_dat_view(res) == Dat::Cons(
                                            Box::new(hw),
                                            Box::new(tw),
                                        ));
                                        assert(dv_wf(rt_dat_view(res), n2));
                                    }
                                    Ok(res)
                                },
                            }
                        },
                    }
                }
            },
            _ => Ok(d.dup()),
        }
    }
}

/// Looking up an unbound symbol evaluates to the unbound-variable error
/// carrying the looked-up name.
pub proof fn lemma_unbound_reported(st: Seq<FrameV>, name: Seq<char>, env: int, fuel: nat)
    requires
        fuel >= 1,
        lookup_spec(st, env, name) is None,
    ensures
        spec_eval(st, Dat::Sym(name), env, fuel) == (st, Err::<Dat<RtV>, ErrV>(
            ErrV::UnboundVariable(name),
        )),
{
}

/// The image a parsed datum evaluates as: the same structure, with any
/// parser-side extension value (there are none in practice) reading as `()`.
pub open spec fn embed_dat(d: Dat<()>) -> Dat<RtV>
    decreases d,
{
    match d {
        Dat::Sym(s) => Dat::Sym(s),
        Dat::Bool(b) => Dat::Bool(b),
        Dat::Char(c) => Dat::Char(c),
        Dat::Str(s) => Dat::Str(s),
        Dat::Vector(els) => Dat::Vector(
            Seq::new(
                els.len(),
                |i: int|
                    if 0 <= i < els.len() {
                        embed_dat(els[i])
                    } else {
                        Dat::Nil
                    },
            ),
        ),
        Dat::Bytes(b) => Dat::Bytes(b),
        Dat::Num(n) => Dat::Num(n),
        Dat::Nil => Dat::Nil,
        Dat::Cons(h, t) => Dat::Cons(Box::new(embed_dat(*h)), Box::new(embed_dat(*t))),
        Dat::Ext(_) => Dat::Nil,
    }
}

/// An embedded parser datum holds no closures, so it is well formed for any
/// store.
pub proof fn lemma_embed_wf(d: Dat<()>, n: int)
    ensures
        dv_wf(embed_dat(d), n),
    decreases d,
{
    match d {
        Dat::Vector(els) => {
            let ev = embed_dat(d)->Vector_0;
            assert forall|i: int| 0 <= i < els.len() implies dv_wf(#[trigger] ev[i], n) by {
                lemma_embed_wf(els[i], n);
            }
            lemma_dvs_wf_pointwise(ev, n);
        },
        Dat::Cons(h, t) => {
            lemma_embed_wf(*h, n);
            lemma_embed_wf(*t, n);
        },
        _ => {},
    }
}

/// A sequence of pointwise well-formed images is well formed.
proof fn lemma_dvs_wf_pointwise(s: Seq<Dat<RtV>>, n: int)
    requires
        forall|i: int| 0 <= i < s.len() ==> dv_wf(#[trigger] s[i], n),
    ensures
        dvs_wf(s, n),
    decreases s,
{
    if s.len() > 0 {
        let rest = s.subrange(1, s.len() as int);
        assert forall|i: int| 0 <= i < rest.len() implies dv_wf(#[trigger] rest[i], n) by {
            assert(rest[i] == s[i + 1]);
        }
        lemma_dvs_wf_pointwise(rest, n);
    }
}

/// Convert a parsed datum into a runtime datum.
pub fn from_parsed(d: &Datum<()>) -> (r: Datum<RtData>)
    ensures
        rt_dat_view(r) == embed_dat(crate::datum::dat_view(*d)),
    decreases *d,
{
    match d {
        Datum::Sym(s) => Datum::Sym(s.clone()),
        Datum::Bool(b) => Datum::Bool(*b),
        Datum::Char(c) => Datum::Char(*c),
        Datum::Str(s) => Datum::Str(crate::datum::rc_clone(s)),
        Datum::Vector(v) => {
            let mut out: Vec<Datum<RtData>> = Vec::new();
            let mut i: usize = 0;
            while i < v.len()
                invariant
                    out@.len() == i,
                    0 <= i <= v@.len(),
                    *d is Vector,
                    (*d)->Vector_0 == *v,
                    forall|k: int|
                        0 <= k < i ==> rt_dat_view(#[trigger] out@[k]) == embed_dat(
                            crate::datum::dat_view(v@[k]),
                        ),
                decreases v@.len() - i,
            {
                proof {
                    assert(decreases_to!(*d => v@[i as int]));
                }
                let e = from_parsed(&v[i]);
                out.push(e);
                i = i + 1;
            }
            let r = Datum::Vector(std::rc::Rc::new(out));
            proof {
                assert((*d)->Vector_0 == *v);
                assert(rt_dat_view(r) == Dat::Vector(crate::value::views_of(out@)));
                let lhs = rt_dat_view(r)->Vector_0;
                let rhs = embed_dat(crate::datum::dat_view(*d))->Vector_0;
                assert forall|k: int| 0 <= k < lhs.len() implies lhs[k] == rhs[k] by {
                    assert(lhs[k] == rt_dat_view(out@[k]));
                    assert(crate::datum::dat_view(*d)->Vector_0[k] == crate::datum::dat_view(
                        v@[k],
                    ));
                    assert(rhs[k] == embed_dat(crate::datum::dat_view(v@[k])));
                }
                assert(lhs =~= rhs);
                assert(rt_dat_view(r) == embed_dat(crate::datum::dat_view(*d)));
            }
            r
        },
        Datum::Bytes(b) => Datum::Bytes(crate::datum::rc_clone(b)),
        Datum::Num(n) => Datum::Num(*n),
        Datum::Nil => Datum::Nil,
        Datum::Cons(rc) => {
            let h = from_parsed(&rc.0);
            let t = from_parsed(&rc.1);
            let ghost hw = rt_dat_view(h);
            let ghost tw = rt_dat_view(t);
            let r = crate::datum::cons(h, t);
            proof {
                assert(rt_dat_view(r) == Dat::Cons(Box::new(hw), Box::new(tw)));
            }
            r
        },
        Datum::Ext(_) => Datum::Nil,
    }
}

impl Runtime {
    /// Evaluate a parsed datum in the global environment.
    pub fn eval_parsed(&mut self, d: &Datum<()>, fuel: u64) -> (r: Result<Datum<RtData>, Error>)
        requires
            old(self).wf(),
        ensures
            final(self).wf(),
            final(self).view_spec() == spec_eval(
                old(self).view_spec(),
                embed_dat(crate::datum::dat_view(*d)),
                0,
                fuel as nat,
            ).0,
            outcome_matches(
                r,
                spec_eval(
                    old(self).view_spec(),
                    embed_dat(crate::datum::dat_view(*d)),
                    0,
                    fuel as nat,
                ).1,
                final(self).view_spec().len() as int,
            ),
    {
        let rd = from_parsed(d);
        proof {
            lemma_embed_wf(crate::datum::dat_view(*d), self.view_spec().len() as int);
        }
        self.eval(&rd, 0, fuel)
    }
}

/// A pair of well-formed images is well formed.
proof fn lemma_wf_cons(h: Dat<RtV>, t: Dat<RtV>, n: int)
    requires
        dv_wf(h, n),
        dv_wf(t, n),
    ensures
        dv_wf(Dat::Cons(Box::new(h), Box::new(t)), n),
{
}

/// The generic and runtime images of a datum agree.
proof fn lemma_views_agree(d: &Datum<RtData>)
    ensures
        crate::datum::dat_view(*d) == rt_dat_view(*d),
    decreases *d,
{
    match d {
        Datum::Vector(v) => {
            assert forall|i: int| 0 <= i < v@.len() implies crate::datum::dat_view(v@[i])
                == rt_dat_view(v@[i]) by {
                lemma_views_agree(&v@[i]);
            }
            assert(rt_dat_view(*d) == Dat::Vector(views_of(v@)));
            assert forall|i: int|
                0 <= i < v@.len() implies crate::datum::dat_view(*d)->Vector_0[i] == rt_dat_view(
                *d,
            )->Vector_0[i] by {
                assert(crate::datum::dat_view(*d)->Vector_0[i] == crate::datum::dat_view(v@[i]));
                assert(views_of(v@)[i] == rt_dat_view(v@[i]));
            }
            assert(crate::datum::dat_view(*d)->Vector_0 =~= rt_dat_view(*d)->Vector_0);
            assert(crate::datum::dat_view(*d) == rt_dat_view(*d));
        },
        Datum::Cons(rc) => {
            lemma_views_agree(&rc.0);
            lemma_views_agree(&rc.1);
        },
        _ => {},
    }
}

/// A proper-list image belongs exactly to a datum whose spine ends in `()`.
proof fn lemma_proper_iff(d: &Datum<RtData>)
    ensures
        (crate::datum::improper_tail(*d) is None) == vis_proper(rt_dat_view(*d)),
    decreases *d,
{
    match d {
        Datum::Cons(rc) => {
            lemma_proper_iff(&rc.1);
        },
        _ => {},
    }
}

/// The operand of a two-element quotation form: `which` 0 recognizes
/// `(unquote x)` on the datum, 1 recognizes `(quasiquote x)` on the datum,
/// and 2 recognizes `(unquote-splicing x)`.
fn form2_operand(d: &Datum<RtData>, which: u8) -> (r: Option<Datum<RtData>>)
    ensures
        ({
            let kw = if which == 0 {
                "unquote"@
            } else if which == 1 {
                "quasiquote"@
            } else {
                "unquote-splicing"@
            };
            match r {
                Some(x) => as_form2(rt_dat_view(*d), kw) == Some(rt_dat_view(x))
                    && rt_dat_view(*d) == Dat::Cons(
                    Box::new(Dat::Sym(kw)),
                    Box::new(
                        Dat::Cons(Box::new(rt_dat_view(x)), Box::new(Dat::Nil)),
                    ),
                ),
                None => as_form2(rt_dat_view(*d), kw) is None,
            }
        }),
{
    match d {
        Datum::Cons(rc) => {
            proof {
                assert(rt_dat_view(*d) == Dat::Cons(Box::new(rdv(&rc.0)), Box::new(rdv(&rc.1))));
            }
            match &rc.0 {
                Datum::Sym(s) => {
                    let matched = if which == 0 {
                        *s == "unquote".to_owned()
                    } else if which == 1 {
                        *s == "quasiquote".to_owned()
                    } else {
                        *s == "unquote-splicing".to_owned()
                    };
                    if !matched {
                        return None;
                    }
                    match &rc.1 {
                        Datum::Cons(rc2) => {
                            proof {
                                assert(rdv(&rc.1) == Dat::Cons(
                                    Box::new(rdv(&rc2.0)),
                                    Box::new(rdv(&rc2.1)),
                                ));
                            }
                            match &rc2.1 {
                                Datum::Nil => Some(rc2.0.dup()),
                                _ => None,
                            }
                        },
                        _ => None,
                    }
                },
                _ => None,
            }
        },
        _ => None,
    }
}

} // verus!
