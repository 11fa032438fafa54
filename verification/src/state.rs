//! The executable analysis state: three record vectors, the scope frames,
//! and the variable-id counter. Every operation is specified as equal to the
//! corresponding function of the mathematical model in [`crate::model`].

use vstd::prelude::*;

use crate::info::{InfoV, SubsInfo, has_id, info_set, lemma_info_set_contains,
    lemma_info_set_push};
use crate::model::{EnvV, FrameV, StateModel, SetsV, add_binding, env_lookup, frame_has_var,
    frame_lookup, kill_var, merge_sets, push_frame, sets_of, with_sets};

verus! {

/// View of one executable scope frame.
pub open spec fn frame_view(f: Seq<(String, u64)>) -> FrameV {
    f.map_values(|p: (String, u64)| (p.0@, p.1))
}

/// View of the executable frame stack.
pub open spec fn env_view(fs: Seq<Vec<(String, u64)>>) -> EnvV {
    fs.map_values(|f: Vec<(String, u64)>| frame_view(f@))
}

/// The classification sets alone, as cloned at a branch point.
pub struct Sets {
    pub unknown: Vec<SubsInfo>,
    pub useful: Vec<SubsInfo>,
    pub useless: Vec<SubsInfo>,
}

impl View for Sets {
    type V = SetsV;

    open spec fn view(&self) -> SetsV {
        SetsV {
            unknown: info_set(self.unknown@),
            useful: info_set(self.useful@),
            useless: info_set(self.useless@),
        }
    }
}

/// The full executable analysis state for one body.
pub struct Analysis {
    /// Records not yet classified.
    pub unknown: Vec<SubsInfo>,
    /// Records whose value is read on some path.
    pub useful: Vec<SubsInfo>,
    /// Records proven dead.
    pub useless: Vec<SubsInfo>,
    /// Scope frames, outermost first.
    pub frames: Vec<Vec<(String, u64)>>,
    /// The next variable id to allocate.
    pub next_var: u64,
}

impl View for Analysis {
    type V = StateModel;

    open spec fn view(&self) -> StateModel {
        StateModel {
            unknown: info_set(self.unknown@),
            useful: info_set(self.useful@),
            useless: info_set(self.useless@),
            frames: env_view(self.frames@),
            next_var: self.next_var,
        }
    }
}

/// Whether view `x` occurs in the record suffix `src[k..]`.
pub open spec fn in_suffix(src: Seq<SubsInfo>, k: int, x: InfoV) -> bool {
    exists|j: int| k <= j < src.len() && src[j]@ == x
}

proof fn lemma_in_suffix_step(src: Seq<SubsInfo>, k: int, x: InfoV)
    requires
        0 < k <= src.len(),
    ensures
        in_suffix(src, k - 1, x) <==> (in_suffix(src, k, x) || src[k - 1]@ == x),
{
    if in_suffix(src, k - 1, x) {
        let j = choose|j: int| k - 1 <= j < src.len() && src[j]@ == x;
        if j >= k {
            assert(in_suffix(src, k, x));
        }
    }
    if in_suffix(src, k, x) {
        let j = choose|j: int| k <= j < src.len() && src[j]@ == x;
        assert(k - 1 <= j < src.len() && src[j]@ == x);
    }
    if src[k - 1]@ == x {
        assert(k - 1 <= k - 1 < src.len() && src[k - 1]@ == x);
    }
}

proof fn lemma_in_suffix_zero(src: Seq<SubsInfo>, x: InfoV)
    ensures
        in_suffix(src, 0, x) <==> info_set(src).contains(x),
{
    lemma_info_set_contains(src, x);
}

/// Move every record of variable `v` from `src` to the end of `dst`.
fn take_var(src: &mut Vec<SubsInfo>, dst: &mut Vec<SubsInfo>, v: u64)
    ensures
        info_set(final(src)@) == info_set(old(src)@).filter(|i: InfoV| i.var != v),
        info_set(final(dst)@) == info_set(old(dst)@).union(
            info_set(old(src)@).filter(|i: InfoV| i.var == v),
        ),
{
    let ghost src0 = src@;
    let ghost dst0 = dst@;
    let mut kept: Vec<SubsInfo> = Vec::new();
    proof {
        assert(src@ =~= src0.take(src@.len() as int));
    }
    while src.len() > 0
        invariant
            src@.len() <= src0.len(),
            src@ == src0.take(src@.len() as int),
            forall|x: InfoV| #[trigger]
                info_set(kept@).contains(x) <==> (in_suffix(src0, src@.len() as int, x)
                    && x.var != v),
            forall|x: InfoV| #[trigger]
                info_set(dst@).contains(x) <==> (info_set(dst0).contains(x) || (in_suffix(
                    src0,
                    src@.len() as int,
                    x,
                ) && x.var == v)),
        decreases src@.len(),
    {
        let ghost k = src@.len() as int;
        let info = src.pop().unwrap();
        proof {
            assert(src0.take(k).last() == src0[k - 1]);
            assert(src0.take(k).drop_last() =~= src0.take(k - 1));
            assert(info@ == src0[k - 1]@);
            assert forall|x: InfoV|
                in_suffix(src0, k - 1, x) <==> (in_suffix(src0, k, x) || src0[k - 1]@
                    == x) by {
                lemma_in_suffix_step(src0, k, x);
            }
        }
        if info.var == v {
            let ghost d0 = dst@;
            dst.push(info);
            proof {
                lemma_info_set_push(d0, info);
            }
        } else {
            let ghost k0 = kept@;
            kept.push(info);
            proof {
                lemma_info_set_push(k0, info);
            }
        }
    }
    core::mem::swap(src, &mut kept);
    proof {
        assert forall|x: InfoV| in_suffix(src0, 0, x) <==> info_set(src0).contains(x) by {
            lemma_in_suffix_zero(src0, x);
        }
        assert(info_set(src@) =~= info_set(src0).filter(|i: InfoV| i.var != v));
        assert(info_set(dst@) =~= info_set(dst0).union(
            info_set(src0).filter(|i: InfoV| i.var == v),
        ));
    }
}

/// Scan an executable frame for a binding of variable id `v`.
fn frame_binds(f: &Vec<(String, u64)>, v: u64) -> (r: bool)
    ensures
        r == frame_has_var(frame_view(f@), v),
{
    let ghost fv = frame_view(f@);
    let mut j: usize = 0;
    while j < f.len()
        invariant
            j <= f.len(),
            fv.len() == f@.len(),
            forall|k: int| 0 <= k < f@.len() ==> fv[k].1 == f@[k].1,
            forall|k: int| 0 <= k < j ==> fv[k].1 != v,
        decreases f.len() - j,
    {
        if f[j].1 == v {
            proof {
                assert(fv[j as int].1 == v);
            }
            return true;
        }
        j += 1;
    }
    false
}

/// Move every record whose variable is bound in frame `f` from `src` to the
/// end of `dst`.
fn take_frame_vars(src: &mut Vec<SubsInfo>, dst: &mut Vec<SubsInfo>, f: &Vec<(String, u64)>)
    ensures
        info_set(final(src)@) == info_set(old(src)@).filter(
            |i: InfoV| !frame_has_var(frame_view(f@), i.var),
        ),
        info_set(final(dst)@) == info_set(old(dst)@).union(
            info_set(old(src)@).filter(|i: InfoV| frame_has_var(frame_view(f@), i.var)),
        ),
{
    let ghost fv = frame_view(f@);
    let ghost src0 = src@;
    let ghost dst0 = dst@;
    let mut kept: Vec<SubsInfo> = Vec::new();
    proof {
        assert(src@ =~= src0.take(src@.len() as int));
    }
    while src.len() > 0
        invariant
            src@.len() <= src0.len(),
            src@ == src0.take(src@.len() as int),
            forall|x: InfoV| #[trigger]
                info_set(kept@).contains(x) <==> (in_suffix(src0, src@.len() as int, x)
                    && !frame_has_var(fv, x.var)),
            forall|x: InfoV| #[trigger]
                info_set(dst@).contains(x) <==> (info_set(dst0).contains(x) || (in_suffix(
                    src0,
                    src@.len() as int,
                    x,
                ) && frame_has_var(fv, x.var))),
        decreases src@.len(),
    {
        let ghost k = src@.len() as int;
        let info = src.pop().unwrap();
        proof {
            assert(src0.take(k).last() == src0[k - 1]);
            assert(src0.take(k).drop_last() =~= src0.take(k - 1));
            assert(info@ == src0[k - 1]@);
            assert forall|x: InfoV|
                in_suffix(src0, k - 1, x) <==> (in_suffix(src0, k, x) || src0[k - 1]@
                    == x) by {
                lemma_in_suffix_step(src0, k, x);
            }
        }
        if frame_binds(f, info.var) {
            let ghost d0 = dst@;
            dst.push(info);
            proof {
                lemma_info_set_push(d0, info);
            }
        } else {
            let ghost k0 = kept@;
            kept.push(info);
            proof {
                lemma_info_set_push(k0, info);
            }
        }
    }
    core::mem::swap(src, &mut kept);
    proof {
        assert forall|x: InfoV| in_suffix(src0, 0, x) <==> info_set(src0).contains(x) by {
            lemma_in_suffix_zero(src0, x);
        }
        assert(info_set(src@) =~= info_set(src0).filter(
            |i: InfoV| !frame_has_var(fv, i.var),
        ));
        assert(info_set(dst@) =~= info_set(dst0).union(
            info_set(src0).filter(|i: InfoV| frame_has_var(fv, i.var)),
        ));
    }
}

/// Drop from `target` every record whose element id occurs in `by`.
fn retain_fresh_ids(target: &mut Vec<SubsInfo>, by: &Vec<SubsInfo>)
    ensures
        info_set(final(target)@) == info_set(old(target)@).filter(
            |i: InfoV| !has_id(info_set(by@), i.id),
        ),
{
    let ghost src0 = target@;
    let mut kept: Vec<SubsInfo> = Vec::new();
    proof {
        assert(target@ =~= src0.take(target@.len() as int));
    }
    while target.len() > 0
        invariant
            target@.len() <= src0.len(),
            target@ == src0.take(target@.len() as int),
            forall|x: InfoV| #[trigger]
                info_set(kept@).contains(x) <==> (in_suffix(src0, target@.len() as int, x)
                    && !has_id(info_set(by@), x.id)),
        decreases target@.len(),
    {
        let ghost k = target@.len() as int;
        let info = target.pop().unwrap();
        proof {
            assert(src0.take(k).last() == src0[k - 1]);
            assert(src0.take(k).drop_last() =~= src0.take(k - 1));
            assert(info@ == src0[k - 1]@);
            assert forall|x: InfoV|
                in_suffix(src0, k - 1, x) <==> (in_suffix(src0, k, x) || src0[k - 1]@
                    == x) by {
                lemma_in_suffix_step(src0, k, x);
            }
        }
        if !crate::info::contains_id(by, info.id) {
            let ghost k0 = kept@;
            kept.push(info);
            proof {
                lemma_info_set_push(k0, info);
            }
        }
    }
    core::mem::swap(target, &mut kept);
    proof {
        assert forall|x: InfoV| in_suffix(src0, 0, x) <==> info_set(src0).contains(x) by {
            lemma_in_suffix_zero(src0, x);
        }
        assert(info_set(target@) =~= info_set(src0).filter(
            |i: InfoV| !has_id(info_set(by@), i.id),
        ));
    }
}

/// Compare two records field by field.
fn same_info(a: &SubsInfo, b: &SubsInfo) -> (r: bool)
    ensures
        r == (a@ == b@),
{
    let files_match = match (a.file_id, b.file_id) {
        (Some(x), Some(y)) => x == y,
        (None, None) => true,
        _ => false,
    };
    a.id == b.id && a.var == b.var && a.var_name == b.var_name && a.start == b.start && a.end
        == b.end && files_match && a.contains_signal == b.contains_signal && a.is_artificial
        == b.is_artificial && a.is_constant == b.is_constant
}

/// Scan a record vector for a record equal to `x`.
fn contains_info(v: &Vec<SubsInfo>, x: &SubsInfo) -> (r: bool)
    ensures
        r == info_set(v@).contains(x@),
{
    proof {
        lemma_info_set_contains(v@, x@);
    }
    let mut j: usize = 0;
    while j < v.len()
        invariant
            j <= v@.len(),
            forall|k: int| 0 <= k < j ==> v@[k]@ != x@,
        decreases v@.len() - j,
    {
        if same_info(&v[j], x) {
            return true;
        }
        j += 1;
    }
    false
}

/// Add every record of `src` that `dst` does not already hold.
fn union_into(dst: &mut Vec<SubsInfo>, src: Vec<SubsInfo>)
    ensures
        info_set(final(dst)@) == info_set(old(dst)@).union(info_set(src@)),
{
    let mut src = src;
    let ghost src0 = src@;
    let ghost dst0 = dst@;
    proof {
        assert(src@ =~= src0.take(src@.len() as int));
    }
    while src.len() > 0
        invariant
            src@.len() <= src0.len(),
            src@ == src0.take(src@.len() as int),
            forall|x: InfoV| #[trigger]
                info_set(dst@).contains(x) <==> (info_set(dst0).contains(x) || in_suffix(
                    src0,
                    src@.len() as int,
                    x,
                )),
        decreases src@.len(),
    {
        let ghost k = src@.len() as int;
        let info = src.pop().unwrap();
        proof {
            assert(src0.take(k).last() == src0[k - 1]);
            assert(src0.take(k).drop_last() =~= src0.take(k - 1));
            assert(info@ == src0[k - 1]@);
            assert forall|x: InfoV|
                in_suffix(src0, k - 1, x) <==> (in_suffix(src0, k, x) || src0[k - 1]@
                    == x) by {
                lemma_in_suffix_step(src0, k, x);
            }
        }
        if !contains_info(dst, &info) {
            let ghost d0 = dst@;
            dst.push(info);
            proof {
                lemma_info_set_push(d0, info);
            }
        }
    }
    proof {
        assert forall|x: InfoV| in_suffix(src0, 0, x) <==> info_set(src0).contains(x) by {
            lemma_in_suffix_zero(src0, x);
        }
        assert(info_set(dst@) =~= info_set(dst0).union(info_set(src0)));
    }
}

/// Clone a record vector.
fn clone_records(v: &Vec<SubsInfo>) -> (r: Vec<SubsInfo>)
    ensures
        info_set(r@) == info_set(v@),
{
    let mut r: Vec<SubsInfo> = Vec::new();
    let mut j: usize = 0;
    while j < v.len()
        invariant
            j <= v.len(),
            r@.len() == j,
            forall|k: int| 0 <= k < j ==> r@[k]@ == v@[k]@,
        decreases v.len() - j,
    {
        r.push(v[j].clone());
        j += 1;
    }
    proof {
        assert(r@.map_values(|i: SubsInfo| i@) =~= v@.map_values(|i: SubsInfo| i@));
    }
    r
}

impl Analysis {
    /// A fresh state: empty sets, no frame yet, ids from zero.
    pub fn new() -> (r: Analysis)
        ensures
            r@ == (StateModel {
                unknown: Set::<InfoV>::empty(),
                useful: Set::<InfoV>::empty(),
                useless: Set::<InfoV>::empty(),
                frames: Seq::<FrameV>::empty(),
                next_var: 0u64,
            }),
    {
        let r = Analysis {
            unknown: Vec::new(),
            useful: Vec::new(),
            useless: Vec::new(),
            frames: Vec::new(),
            next_var: 0,
        };
        proof {
            assert(info_set(r.unknown@) =~= Set::<InfoV>::empty());
            assert(env_view(r.frames@) =~= Seq::<FrameV>::empty());
        }
        r
    }

    /// Open a new scope frame.
    pub fn add_variable_block(&mut self)
        ensures
            final(self)@ == push_frame(old(self)@),
    {
        let ghost fs0 = self.frames@;
        self.frames.push(Vec::new());
        proof {
            assert(env_view(self.frames@) =~~= env_view(fs0).push(Seq::empty()));
        }
    }

    /// Bind `name` to a fresh variable id in the innermost frame. Without an
    /// open frame the declaration is ignored.
    pub fn add_variable(&mut self, name: &String)
        ensures
            final(self)@ == add_binding(old(self)@, name@),
    {
        if self.frames.len() == 0 {
            return;
        }
        let ghost fs0 = self.frames@;
        let id = self.next_var;
        if self.next_var < u64::MAX {
            self.next_var = self.next_var + 1;
        }
        let mut f = self.frames.pop().unwrap();
        let ghost f0 = f@;
        f.push((name.clone(), id));
        proof {
            assert(frame_view(f@) =~= frame_view(f0).push((name@, id)));
        }
        self.frames.push(f);
        proof {
            assert(env_view(self.frames@) =~= env_view(fs0).update(
                fs0.len() - 1,
                frame_view(f0).push((name@, id)),
            ));
            assert(env_view(fs0)[fs0.len() - 1] == frame_view(f0));
        }
    }

    /// Innermost binding of `name`, scanning frames from the innermost out.
    pub fn get_variable(&self, name: &String) -> (r: Option<u64>)
        ensures
            r == env_lookup(self@.frames, name@),
    {
        let ghost env = env_view(self.frames@);
        let mut d = self.frames.len();
        proof {
            assert(env =~= env.take(d as int));
        }
        while d > 0
            invariant
                d <= self.frames@.len(),
                env == env_view(self.frames@),
                env.len() == self.frames@.len(),
                env_lookup(env, name@) == env_lookup(env.take(d as int), name@),
            decreases d,
        {
            d = d - 1;
            let f = &self.frames[d];
            let ghost fv = frame_view(f@);
            proof {
                assert(env[d as int] == fv);
            }
            let mut j = f.len();
            proof {
                assert(fv =~= fv.take(j as int));
            }
            while j > 0
                invariant
                    j <= f@.len(),
                    fv == frame_view(f@),
                    fv.len() == f@.len(),
                    frame_lookup(fv, name@) == frame_lookup(fv.take(j as int), name@),
                decreases j,
            {
                j = j - 1;
                proof {
                    assert(fv.take(j + 1).last() == fv[j as int]);
                    assert(fv.take(j + 1).drop_last() =~= fv.take(j as int));
                    assert(fv[j as int] == (f@[j as int].0@, f@[j as int].1));
                }
                if f[j].0 == *name {
                    proof {
                        assert(frame_lookup(fv.take(j + 1), name@) == Some(f@[j as int].1));
                        assert(env.take(d + 1).last() == fv);
                        assert(env.take(d + 1).drop_last() =~= env.take(d as int));
                        assert(env_lookup(env.take(d + 1), name@) == Some(f@[j as int].1));
                    }
                    return Some(f[j].1);
                }
            }
            proof {
                assert(fv.take(0) =~= Seq::<(Seq<char>, u64)>::empty());
                assert(frame_lookup(fv, name@) is None);
                assert(env.take(d + 1).last() == fv);
                assert(env.take(d + 1).drop_last() =~= env.take(d as int));
            }
        }
        proof {
            assert(env.take(0) =~= Seq::<FrameV>::empty());
        }
        None
    }

    /// Record that every name in `read_vars` is read: all pending records of
    /// the variables those names resolve to become useful. Names that are
    /// not bound (signals, components, tags, externals) are ignored.
    pub fn analyse_reader(&mut self, read_vars: &Vec<String>)
        ensures
            final(self)@ == crate::model::record_reads(
                old(self)@,
                crate::scanner::names_set(read_vars@),
            ),
    {
        let ghost m0 = self@;
        let ghost names = crate::scanner::names_set(read_vars@);
        let mut j: usize = 0;
        while j < read_vars.len()
            invariant
                j <= read_vars@.len(),
                self@.frames == m0.frames,
                self@.next_var == m0.next_var,
                self@.useless == m0.useless,
                self@.unknown == m0.unknown.filter(
                    |i: InfoV| !read_by_prefix(m0.frames, read_vars@, j as int, i.var),
                ),
                self@.useful == m0.useful.union(
                    m0.unknown.filter(
                        |i: InfoV| read_by_prefix(m0.frames, read_vars@, j as int, i.var),
                    ),
                ),
            decreases read_vars@.len() - j,
        {
            let ghost pre = self@;
            let name = &read_vars[j];
            let r = self.get_variable(name);
            match r {
                Some(v) => {
                    take_var(&mut self.unknown, &mut self.useful, v);
                    proof {
                        assert forall|i: InfoV|
                            (read_by_prefix(m0.frames, read_vars@, j as int, i.var) || (
                            !read_by_prefix(m0.frames, read_vars@, j as int, i.var) && i.var
                                == v)) <==> read_by_prefix(
                                m0.frames,
                                read_vars@,
                                j + 1,
                                i.var,
                            ) by {
                            lemma_read_by_prefix_step(m0.frames, read_vars@, j as int, i.var);
                        }
                        assert(self@.unknown =~= m0.unknown.filter(
                            |i: InfoV| !read_by_prefix(m0.frames, read_vars@, j + 1, i.var),
                        ));
                        assert(self@.useful =~= m0.useful.union(
                            m0.unknown.filter(
                                |i: InfoV| read_by_prefix(m0.frames, read_vars@, j + 1, i.var),
                            ),
                        ));
                    }
                },
                None => {
                    proof {
                        assert forall|i: InfoV|
                            read_by_prefix(m0.frames, read_vars@, j as int, i.var)
                                <==> read_by_prefix(m0.frames, read_vars@, j + 1, i.var) by {
                            lemma_read_by_prefix_step(m0.frames, read_vars@, j as int, i.var);
                        }
                        assert(self@.unknown =~= m0.unknown.filter(
                            |i: InfoV| !read_by_prefix(m0.frames, read_vars@, j + 1, i.var),
                        ));
                        assert(self@.useful =~= m0.useful.union(
                            m0.unknown.filter(
                                |i: InfoV| read_by_prefix(m0.frames, read_vars@, j + 1, i.var),
                            ),
                        ));
                    }
                },
            }
            j += 1;
        }
        proof {
            assert forall|i: InfoV|
                read_by_prefix(m0.frames, read_vars@, read_vars@.len() as int, i.var)
                    <==> crate::model::is_read_var(m0.frames, names, i.var) by {
                lemma_read_by_prefix_full(m0.frames, read_vars@, i.var);
            }
            assert(self@.unknown =~= crate::model::record_reads(m0, names).unknown);
            assert(self@.useful =~= crate::model::record_reads(m0, names).useful);
        }
    }

    /// Retire every pending record of variable `v`.
    pub fn kill_variable(&mut self, v: u64)
        ensures
            final(self)@ == kill_var(old(self)@, v),
    {
        take_var(&mut self.unknown, &mut self.useless, v);
    }

    /// Record a full assignment described by `info`.
    pub fn record_assignment(&mut self, info: SubsInfo)
        ensures
            final(self)@ == crate::model::record_assignment(old(self)@, info@),
    {
        self.kill_variable(info.var);
        let ghost m1 = self@;
        let in_useless = crate::info::contains_id(&self.useless, info.id);
        let in_useful = crate::info::contains_id(&self.useful, info.id);
        let in_unknown = crate::info::contains_id(&self.unknown, info.id);
        if !(in_useless || in_useful || in_unknown) {
            let ghost u0 = self.unknown@;
            self.unknown.push(info);
            proof {
                lemma_info_set_push(u0, info);
                assert(self@.unknown =~= m1.unknown.insert(info@));
            }
        }
    }

    /// Close the innermost scope frame: retire the pending records of the
    /// variables it binds, then drop it.
    pub fn remove_variable_block(&mut self)
        ensures
            final(self)@ == crate::model::exit_frame(old(self)@),
    {
        if self.frames.len() == 0 {
            return;
        }
        let ghost fs0 = self.frames@;
        let f = self.frames.pop().unwrap();
        proof {
            assert(env_view(self.frames@) =~= env_view(fs0).drop_last());
            assert(env_view(fs0).last() == frame_view(f@));
        }
        take_frame_vars(&mut self.unknown, &mut self.useless, &f);
    }

    /// Clone the three classification sets, as done at a branch point.
    pub fn snapshot_sets(&self) -> (r: Sets)
        ensures
            r@ == sets_of(self@),
    {
        Sets {
            unknown: clone_records(&self.unknown),
            useful: clone_records(&self.useful),
            useless: clone_records(&self.useless),
        }
    }

    /// Replace the classification sets by `other`, handing the current ones
    /// back.
    pub fn swap_sets(&mut self, other: Sets) -> (r: Sets)
        ensures
            final(self)@ == with_sets(old(self)@, other@),
            r@ == sets_of(old(self)@),
    {
        let mut other = other;
        core::mem::swap(&mut self.unknown, &mut other.unknown);
        core::mem::swap(&mut self.useful, &mut other.useful);
        core::mem::swap(&mut self.useless, &mut other.useless);
        other
    }

    /// Fold the classification sets of a finished branch into this state.
    pub fn merge_branches(&mut self, other: Sets)
        ensures
            final(self)@ == with_sets(old(self)@, merge_sets(other@, sets_of(old(self)@))),
    {
        let Sets { unknown: o_unknown, useful: o_useful, useless: o_useless } = other;
        let ghost a = SetsV {
            unknown: info_set(o_unknown@),
            useful: info_set(o_useful@),
            useless: info_set(o_useless@),
        };
        let ghost b = self@;
        union_into(&mut self.unknown, o_unknown);
        union_into(&mut self.useful, o_useful);
        union_into(&mut self.useless, o_useless);
        let ghost useful = a.useful.union(b.useful);
        let ghost unknown0 = a.unknown.union(b.unknown);
        let ghost useless0 = a.useless.union(b.useless);
        proof {
            assert(info_set(self.unknown@) =~= unknown0);
            assert(info_set(self.useful@) =~= useful);
            assert(info_set(self.useless@) =~= useless0);
        }
        retain_fresh_ids(&mut self.unknown, &self.useful);
        proof {
            assert(info_set(self.unknown@) =~= merge_sets(a, sets_of(b)).unknown);
        }
        retain_fresh_ids(&mut self.useless, &self.useful);
        retain_fresh_ids(&mut self.useless, &self.unknown);
        proof {
            assert(info_set(self.useless@) =~= merge_sets(a, sets_of(b)).useless);
        }
    }
}

/// Whether one of the first `k` names resolves to variable id `v`.
pub open spec fn read_by_prefix(frames: EnvV, names: Seq<String>, k: int, v: u64) -> bool {
    exists|j: int| 0 <= j < k && j < names.len() && env_lookup(frames, names[j]@) == Some(v)
}

proof fn lemma_read_by_prefix_step(frames: EnvV, names: Seq<String>, k: int, v: u64)
    requires
        0 <= k < names.len(),
    ensures
        read_by_prefix(frames, names, k + 1, v) <==> (read_by_prefix(frames, names, k, v)
            || env_lookup(frames, names[k]@) == Some(v)),
{
    if read_by_prefix(frames, names, k + 1, v) {
        let j = choose|j: int|
            0 <= j < k + 1 && j < names.len() && env_lookup(frames, names[j]@) == Some(v);
        if j < k {
            assert(read_by_prefix(frames, names, k, v));
        }
    }
    if read_by_prefix(frames, names, k, v) {
        let j = choose|j: int| 0 <= j < k && j < names.len() && env_lookup(frames, names[j]@)
            == Some(v);
        assert(0 <= j < k + 1 && j < names.len() && env_lookup(frames, names[j]@) == Some(v));
    }
    if env_lookup(frames, names[k]@) == Some(v) {
        assert(0 <= k < k + 1 && k < names.len() && env_lookup(frames, names[k]@) == Some(v));
    }
}

proof fn lemma_read_by_prefix_full(frames: EnvV, names: Seq<String>, v: u64)
    ensures
        read_by_prefix(frames, names, names.len() as int, v) <==> crate::model::is_read_var(
            frames,
            crate::scanner::names_set(names),
            v,
        ),
{
    let ns = crate::scanner::names_set(names);
    if read_by_prefix(frames, names, names.len() as int, v) {
        let j = choose|j: int|
            0 <= j < names.len() && j < names.len() && env_lookup(frames, names[j]@) == Some(v);
        crate::scanner::lemma_names_set_contains(names, names[j]@);
        assert(ns.contains(names[j]@));
    }
    if crate::model::is_read_var(frames, ns, v) {
        let n = choose|n: Seq<char>| #[trigger]
            ns.contains(n) && env_lookup(frames, n) == Some(v);
        crate::scanner::lemma_names_set_contains(names, n);
        let j = choose|j: int| 0 <= j < names.len() && names[j]@ == n;
        assert(0 <= j < names.len() && env_lookup(frames, names[j]@) == Some(v));
    }
}

} // verus!
