//! The record the analysis keeps for every full variable substitution it has
//! seen, and the set-level helpers the contracts use.
//!
//! A record carries the stable element id of the substitution node, the
//! pass-local id of the assigned variable, and the metadata needed later for
//! warnings. Records are deduplicated by element id: the registry never holds
//! two records with the same `id`.

use vstd::prelude::*;

verus! {

/// Everything the analysis remembers about one full variable substitution.
pub struct SubsInfo {
    /// The `elem_id` of the substitution node.
    pub id: usize,
    /// The pass-local id of the assigned variable.
    pub var: u64,
    /// The source name of the assigned variable.
    pub var_name: String,
    /// Start of the source range of the substitution.
    pub start: usize,
    /// End of the source range of the substitution.
    pub end: usize,
    /// The file the substitution comes from, when known.
    pub file_id: Option<usize>,
    /// Whether the right-hand side mentions a signal-typed identifier.
    pub contains_signal: bool,
    /// Whether an earlier compiler stage synthesised the substitution.
    pub is_artificial: bool,
    /// Whether the substitution initialises a constant of an
    /// initialization block.
    pub is_constant: bool,
}

/// Mathematical view of a [`SubsInfo`].
pub struct InfoV {
    pub id: usize,
    pub var: u64,
    pub var_name: Seq<char>,
    pub start: usize,
    pub end: usize,
    pub file_id: Option<usize>,
    pub contains_signal: bool,
    pub is_artificial: bool,
    pub is_constant: bool,
}

impl View for SubsInfo {
    type V = InfoV;

    open spec fn view(&self) -> InfoV {
        InfoV {
            id: self.id,
            var: self.var,
            var_name: self.var_name@,
            start: self.start,
            end: self.end,
            file_id: self.file_id,
            contains_signal: self.contains_signal,
            is_artificial: self.is_artificial,
            is_constant: self.is_constant,
        }
    }
}

impl Clone for SubsInfo {
    fn clone(&self) -> (res: Self)
        ensures
            res@ == self@,
    {
        SubsInfo {
            id: self.id,
            var: self.var,
            var_name: self.var_name.clone(),
            start: self.start,
            end: self.end,
            file_id: self.file_id,
            contains_signal: self.contains_signal,
            is_artificial: self.is_artificial,
            is_constant: self.is_constant,
        }
    }
}

/// The set of record views held by a vector of records.
pub open spec fn info_set(v: Seq<SubsInfo>) -> Set<InfoV> {
    v.map_values(|i: SubsInfo| i@).to_set()
}

/// Membership in `info_set` is existence of an element with that view.
pub broadcast proof fn lemma_info_set_contains(v: Seq<SubsInfo>, x: InfoV)
    ensures
        #[trigger] info_set(v).contains(x) <==> exists|j: int| 0 <= j < v.len() && v[j]@ == x,
{
    let m = v.map_values(|i: SubsInfo| i@);
    assert(info_set(v).contains(x) <==> m.contains(x));
    if exists|j: int| 0 <= j < v.len() && v[j]@ == x {
        let j = choose|j: int| 0 <= j < v.len() && v[j]@ == x;
        assert(m[j] == x);
    }
}

/// Pushing a record inserts its view into the set.
pub broadcast proof fn lemma_info_set_push(v: Seq<SubsInfo>, i: SubsInfo)
    ensures
        #[trigger] info_set(v.push(i)) == info_set(v).insert(i@),
{
    let w = v.push(i);
    assert forall|x: InfoV| info_set(w).contains(x) <==> info_set(v).insert(i@).contains(x) by {
        lemma_info_set_contains(w, x);
        lemma_info_set_contains(v, x);
        if info_set(v).insert(i@).contains(x) {
            if info_set(v).contains(x) {
                let j = choose|j: int| 0 <= j < v.len() && v[j]@ == x;
                assert(w[j]@ == x);
            } else {
                assert(w[v.len() as int]@ == x);
            }
        }
    }
    assert(info_set(w) =~= info_set(v).insert(i@));
}

/// Whether some record in the set carries the given element id.
pub open spec fn has_id(s: Set<InfoV>, id: usize) -> bool {
    exists|i: InfoV| s.contains(i) && i.id == id
}

/// A vector holds an id exactly when its record-set does.
pub broadcast proof fn lemma_has_id_vec(v: Seq<SubsInfo>, id: usize)
    ensures
        #[trigger] has_id(info_set(v), id) <==> exists|j: int| 0 <= j < v.len() && v[j]@.id == id,
{
    if has_id(info_set(v), id) {
        let i = choose|i: InfoV| info_set(v).contains(i) && i.id == id;
        lemma_info_set_contains(v, i);
        let j = choose|j: int| 0 <= j < v.len() && v[j]@ == i;
        assert(v[j]@.id == id);
    }
    if exists|j: int| 0 <= j < v.len() && v[j]@.id == id {
        let j = choose|j: int| 0 <= j < v.len() && v[j]@.id == id;
        lemma_info_set_contains(v, v[j]@);
        assert(info_set(v).contains(v[j]@));
    }
}

/// Scan a vector of records for an element id.
pub fn contains_id(v: &Vec<SubsInfo>, id: usize) -> (r: bool)
    ensures
        r == has_id(info_set(v@), id),
{
    proof {
        lemma_has_id_vec(v@, id);
    }
    let mut j: usize = 0;
    while j < v.len()
        invariant
            0 <= j <= v.len(),
            forall|k: int| 0 <= k < j ==> v@[k]@.id != id,
        decreases v.len() - j,
    {
        if v[j].id == id {
            proof {
                lemma_info_set_contains(v@, v@[j as int]@);
                assert(info_set(v@).contains(v@[j as int]@));
            }
            return true;
        }
        j += 1;
    }
    false
}

} // verus!
