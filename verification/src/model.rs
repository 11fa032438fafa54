//! The mathematical model of the analysis state: the three classification
//! sets, the stack of scope frames, and the next free variable id, together
//! with the operations the analyser performs on them.
//!
//! Every executable operation of the pass is specified as equal to one of
//! these functions, so the whole analysis has a closed mathematical
//! description.

use vstd::prelude::*;

use crate::info::{InfoV, has_id};

verus! {

/// A scope frame: the bindings added in one block, oldest first. A later
/// binding for the same name shadows an earlier one.
pub type FrameV = Seq<(Seq<char>, u64)>;

/// The scope environment: frames from outermost to innermost.
pub type EnvV = Seq<FrameV>;

/// The full analysis state.
pub struct StateModel {
    /// Records of substitutions not yet classified.
    pub unknown: Set<InfoV>,
    /// Records whose value is read on some path.
    pub useful: Set<InfoV>,
    /// Records proven dead.
    pub useless: Set<InfoV>,
    /// The scope environment.
    pub frames: EnvV,
    /// The next variable id to allocate.
    pub next_var: u64,
}

/// Innermost binding of `name` in one frame: later bindings win.
pub open spec fn frame_lookup(f: FrameV, name: Seq<char>) -> Option<u64>
    decreases f.len(),
{
    if f.len() == 0 {
        None
    } else if f.last().0 == name {
        Some(f.last().1)
    } else {
        frame_lookup(f.drop_last(), name)
    }
}

/// Innermost binding of `name` in the environment.
pub open spec fn env_lookup(frames: EnvV, name: Seq<char>) -> Option<u64>
    decreases frames.len(),
{
    if frames.len() == 0 {
        None
    } else {
        match frame_lookup(frames.last(), name) {
            Some(v) => Some(v),
            None => env_lookup(frames.drop_last(), name),
        }
    }
}

/// Whether a frame binds some name to the variable id `v`.
pub open spec fn frame_has_var(f: FrameV, v: u64) -> bool {
    exists|j: int| 0 <= j < f.len() && (#[trigger] f[j]).1 == v
}

/// Whether any frame binds some name to the variable id `v`.
pub open spec fn env_has_var(frames: EnvV, v: u64) -> bool {
    exists|d: int| 0 <= d < frames.len() && frame_has_var(#[trigger] frames[d], v)
}

/// Whether one of `names` currently resolves to the variable id `v`.
pub open spec fn is_read_var(frames: EnvV, names: Set<Seq<char>>, v: u64) -> bool {
    exists|n: Seq<char>| #[trigger] names.contains(n) && env_lookup(frames, n) == Some(v)
}

/// Record that every name in `names` is read: all pending records of the
/// resolved variables become useful.
pub open spec fn record_reads(m: StateModel, names: Set<Seq<char>>) -> StateModel {
    StateModel {
        unknown: m.unknown.filter(|i: InfoV| !is_read_var(m.frames, names, i.var)),
        useful: m.useful.union(
            m.unknown.filter(|i: InfoV| is_read_var(m.frames, names, i.var)),
        ),
        ..m
    }
}

/// Retire every pending record of variable `v`: it was overwritten or left
/// scope before being read.
pub open spec fn kill_var(m: StateModel, v: u64) -> StateModel {
    StateModel {
        unknown: m.unknown.filter(|i: InfoV| i.var != v),
        useless: m.useless.union(m.unknown.filter(|i: InfoV| i.var == v)),
        ..m
    }
}

/// Retire every pending record of a variable bound in frame `f`.
pub open spec fn kill_frame_vars(m: StateModel, f: FrameV) -> StateModel {
    StateModel {
        unknown: m.unknown.filter(|i: InfoV| !frame_has_var(f, i.var)),
        useless: m.useless.union(m.unknown.filter(|i: InfoV| frame_has_var(f, i.var))),
        ..m
    }
}

/// Open a new scope frame.
pub open spec fn push_frame(m: StateModel) -> StateModel {
    StateModel { frames: m.frames.push(Seq::empty()), ..m }
}

/// Close the innermost scope frame: retire the pending records of its
/// variables, then drop the frame.
pub open spec fn exit_frame(m: StateModel) -> StateModel {
    if m.frames.len() == 0 {
        m
    } else {
        let m1 = kill_frame_vars(m, m.frames.last());
        StateModel { frames: m.frames.drop_last(), ..m1 }
    }
}

/// Bind `name` to a fresh variable id in the innermost frame. The id
/// counter saturates at its maximum rather than wrap.
pub open spec fn add_binding(m: StateModel, name: Seq<char>) -> StateModel {
    if m.frames.len() == 0 {
        m
    } else {
        StateModel {
            frames: m.frames.update(
                m.frames.len() - 1,
                m.frames.last().push((name, m.next_var)),
            ),
            next_var: if m.next_var == u64::MAX {
                m.next_var
            } else {
                (m.next_var + 1) as u64
            },
            ..m
        }
    }
}

/// Whether any of the three sets holds a record with the given element id.
pub open spec fn state_has_id(m: StateModel, id: usize) -> bool {
    has_id(m.unknown, id) || has_id(m.useful, id) || has_id(m.useless, id)
}

/// Record a full assignment: pending records of the same variable become
/// useless, and the new record enters `unknown` unless its element id has
/// been seen before.
pub open spec fn record_assignment(m: StateModel, info: InfoV) -> StateModel {
    let m1 = kill_var(m, info.var);
    if state_has_id(m1, info.id) {
        m1
    } else {
        StateModel { unknown: m1.unknown.insert(info), ..m1 }
    }
}

/// The three classification sets alone, as cloned at a branch point.
pub struct SetsV {
    pub unknown: Set<InfoV>,
    pub useful: Set<InfoV>,
    pub useless: Set<InfoV>,
}

/// The classification sets of a state.
pub open spec fn sets_of(m: StateModel) -> SetsV {
    SetsV { unknown: m.unknown, useful: m.useful, useless: m.useless }
}

/// The state `m` with its classification sets replaced by `s`.
pub open spec fn with_sets(m: StateModel, s: SetsV) -> StateModel {
    StateModel { unknown: s.unknown, useful: s.useful, useless: s.useless, ..m }
}

/// Join the classification sets of two branches. A read on either path
/// wins; a record still unknown on either path cannot be useless.
pub open spec fn merge_sets(a: SetsV, b: SetsV) -> SetsV {
    let useful = a.useful.union(b.useful);
    let unknown0 = a.unknown.union(b.unknown);
    let useless0 = a.useless.union(b.useless);
    let unknown = unknown0.filter(|i: InfoV| !has_id(useful, i.id));
    let useless = useless0.filter(|i: InfoV| !has_id(useful, i.id) && !has_id(unknown, i.id));
    SetsV { unknown, useful, useless }
}

/// The state a body analysis starts from: empty sets, one frame holding the
/// parameters in order, ids allocated from zero upwards.
pub open spec fn seed_state(params: Seq<Seq<char>>) -> StateModel
    decreases params.len(),
{
    if params.len() == 0 {
        StateModel {
            unknown: Set::empty(),
            useful: Set::empty(),
            useless: Set::empty(),
            frames: seq![Seq::empty()],
            next_var: 0,
        }
    } else {
        add_binding(seed_state(params.drop_last()), params.last())
    }
}

/// All records the state holds, in any classification.
pub open spec fn all_records(m: StateModel) -> Set<InfoV> {
    m.unknown.union(m.useful).union(m.useless)
}

} // verus!
