//! Whether a value of one type may be used where another is expected:
//! assignment, equality comparison and casts, with script inheritance.
use vstd::prelude::*;
use vstd::string::StringSliceAdditionalSpecFns;
use crate::inference::Resolution;
use crate::semantic::{TypeRef, TypeRefView, name_is, string_is, strings_match};
use crate::text::{lower_seq, same_ignoring_case, string_bytes};
use crate::type_system::{
    Compatibility, ValueType, ValueTypeView, combine_compatibility, combine_spec, is_numeric,
    is_primitive_name, spec_is_numeric, spec_is_primitive_name,
};
use crate::workspace::{WorkspaceIndex, byte_views, unique_script_spec};

verus! {

/// Walks up the parents of `current` looking for `target`: compatible when
/// an ancestor is `target`; incompatible when the chain ends first;
/// unresolved when it repeats, leaves the index or is longer than the fuel;
/// ambiguous when a script of the chain is.
pub open spec fn inheritance_walk(
    ws: WorkspaceIndex,
    current: Seq<u8>,
    target: Seq<u8>,
    visited: Seq<Seq<u8>>,
    fuel: nat,
) -> Compatibility
    decreases fuel,
{
    if fuel == 0 || visited.contains(lower_seq(current)) {
        Compatibility::Unresolved
    } else {
        match unique_script_spec(ws, current) {
            Resolution::Resolved(d) => match ws.documents@[d.document as int].semantic.parent_script {
                None => Compatibility::Incompatible,
                Some(p) => if same_ignoring_case(string_bytes(p), target) {
                    Compatibility::Compatible
                } else {
                    inheritance_walk(
                        ws,
                        string_bytes(p),
                        target,
                        visited.push(lower_seq(current)),
                        (fuel - 1) as nat,
                    )
                },
            },
            Resolution::Ambiguous => Compatibility::Ambiguous,
            _ => Compatibility::Unresolved,
        }
    }
}

/// Whether the script `source` descends from `target`, looking at most 64
/// parents up.
pub open spec fn inheritance_spec(ws: WorkspaceIndex, source: Seq<u8>, target: Seq<u8>) -> Compatibility {
    inheritance_walk(ws, source, target, Seq::empty(), 64)
}

pub open spec fn is_var_bytes(n: Seq<u8>) -> bool {
    name_is(n, "Var")
}

/// Whether a value of type `source` may be used as `target`.
pub open spec fn known_spec(ws: WorkspaceIndex, source: TypeRefView, target: TypeRefView) -> Compatibility {
    let s = source.name;
    let t = target.name;
    if source.array || target.array {
        if (source.array == target.array && same_ignoring_case(s, t)) || is_var_bytes(s) || is_var_bytes(t) {
            Compatibility::Compatible
        } else {
            Compatibility::Incompatible
        }
    } else if same_ignoring_case(s, t) || is_var_bytes(s) || is_var_bytes(t) || name_is(t, "String")
        || name_is(t, "Bool") || (name_is(s, "Int") && name_is(t, "Float")) {
        Compatibility::Compatible
    } else if spec_is_primitive_name(s) || spec_is_primitive_name(t) {
        Compatibility::Incompatible
    } else {
        inheritance_spec(ws, s, t)
    }
}

/// Whether a value may be assigned where `target` is expected.
pub open spec fn type_compatibility_spec(ws: WorkspaceIndex, source: ValueTypeView, target: TypeRefView) -> Compatibility {
    match source {
        ValueTypeView::Void => Compatibility::Incompatible,
        ValueTypeView::NoneValue => if target.array || is_var_bytes(target.name) || name_is(
            target.name,
            "Bool",
        ) || name_is(target.name, "String") || !spec_is_primitive_name(target.name) {
            Compatibility::Compatible
        } else {
            Compatibility::Incompatible
        },
        ValueTypeView::Known(s) => known_spec(ws, s, target),
    }
}

/// Whether two values may be compared for equality.
pub open spec fn equality_spec(ws: WorkspaceIndex, left: ValueTypeView, right: ValueTypeView) -> Compatibility {
    if spec_is_numeric(left) && spec_is_numeric(right) {
        Compatibility::Compatible
    } else if left is Void || right is Void {
        Compatibility::Incompatible
    } else {
        match left {
            ValueTypeView::NoneValue => match right {
                ValueTypeView::Known(r) => type_compatibility_spec(ws, ValueTypeView::NoneValue, r),
                _ => Compatibility::Compatible,
            },
            ValueTypeView::Known(l) => {
                let forward = type_compatibility_spec(ws, right, l);
                if forward == Compatibility::Compatible {
                    forward
                } else {
                    match right {
                        ValueTypeView::Known(r) => combine_spec(
                            forward,
                            type_compatibility_spec(ws, ValueTypeView::Known(l), r),
                        ),
                        _ => forward,
                    }
                }
            },
            ValueTypeView::Void => Compatibility::Incompatible,
        }
    }
}

/// Whether a value may be cast to (or tested against) `target`.
pub open spec fn cast_spec(ws: WorkspaceIndex, source: ValueTypeView, target: TypeRefView) -> Compatibility {
    match source {
        ValueTypeView::Void => Compatibility::Incompatible,
        ValueTypeView::NoneValue => type_compatibility_spec(ws, source, target),
        ValueTypeView::Known(s) => if s.array || target.array {
            if s.array == target.array && (same_ignoring_case(s.name, target.name) || is_var_bytes(
                s.name,
            ) || is_var_bytes(target.name)) {
                Compatibility::Compatible
            } else {
                Compatibility::Incompatible
            }
        } else if is_var_bytes(s.name) || is_var_bytes(target.name) || spec_is_primitive_name(
            target.name,
        ) {
            Compatibility::Compatible
        } else if !spec_is_primitive_name(s.name) {
            Compatibility::Compatible
        } else {
            Compatibility::Incompatible
        },
    }
}

impl WorkspaceIndex {
    /// Whether the script `source` descends from `target`.
    pub fn inheritance_compatibility(&self, source: &String, target: &String) -> (r: Compatibility)
        ensures
            r == inheritance_spec(*self, string_bytes(*source), string_bytes(*target)),
    {
        let mut current: String = source.clone();
        let mut visited: Vec<Vec<u8>> = Vec::new();
        let mut fuel: usize = 64;
        assert(byte_views(visited@) =~= Seq::<Seq<u8>>::empty());
        while fuel > 0
            invariant
                inheritance_walk(*self, string_bytes(current), string_bytes(*target), byte_views(visited@), fuel as nat)
                    == inheritance_spec(*self, string_bytes(*source), string_bytes(*target)),
            decreases fuel,
        {
            let raw = current.as_str().as_bytes();
            let lowered = crate::text::lowercase_range(raw, 0, raw.len());
            assert(raw@.subrange(0, raw@.len() as int) =~= raw@);
            let mut seen = false;
            let mut i: usize = 0;
            while i < visited.len()
                invariant
                    0 <= i <= visited@.len(),
                    seen <==> exists|k: int| 0 <= k < i && (#[trigger] byte_views(visited@)[k]) == lowered@,
                decreases visited@.len() - i,
            {
                if crate::text::bytes_equal(visited[i].as_slice(), lowered.as_slice()) {
                    assert(byte_views(visited@)[i as int] == lowered@);
                    seen = true;
                }
                i = i + 1;
            }
            if seen {
                return Compatibility::Unresolved;
            }
            let d = match self.unique_script_outcome(current.as_str().as_bytes()) {
                Resolution::Resolved(d) => d,
                Resolution::Ambiguous => return Compatibility::Ambiguous,
                _ => return Compatibility::Unresolved,
            };
            let parent = match &self.documents[d.document].semantic.parent_script {
                Some(p) => p,
                None => return Compatibility::Incompatible,
            };
            if strings_match(parent, target) {
                return Compatibility::Compatible;
            }
            let ghost before = byte_views(visited@);
            visited.push(lowered);
            assert(byte_views(visited@) =~= before.push(lower_seq(string_bytes(current))));
            current = parent.clone();
            fuel = fuel - 1;
        }
        Compatibility::Unresolved
    }

    fn known_type_compatibility(&self, source: &TypeRef, target: &TypeRef) -> (r: Compatibility)
        ensures
            r == known_spec(*self, source@, target@),
    {
        if source.array || target.array {
            return if (source.array == target.array && strings_match(&source.name, &target.name))
                || string_is(&source.name, "Var") || string_is(&target.name, "Var") {
                Compatibility::Compatible
            } else {
                Compatibility::Incompatible
            };
        }
        if strings_match(&source.name, &target.name) || string_is(&source.name, "Var") || string_is(
            &target.name,
            "Var",
        ) || string_is(&target.name, "String") || string_is(&target.name, "Bool") || (string_is(
            &source.name,
            "Int",
        ) && string_is(&target.name, "Float")) {
            return Compatibility::Compatible;
        }
        if is_primitive_name(&source.name) || is_primitive_name(&target.name) {
            return Compatibility::Incompatible;
        }
        self.inheritance_compatibility(&source.name, &target.name)
    }

    /// Whether a value may be assigned where `target` is expected.
    pub fn type_compatibility(&self, source: &ValueType, target: &TypeRef) -> (r: Compatibility)
        ensures
            r == type_compatibility_spec(*self, source@, target@),
    {
        match source {
            ValueType::Void => Compatibility::Incompatible,
            ValueType::NoneValue => {
                if target.array || string_is(&target.name, "Var") || string_is(&target.name, "Bool")
                    || string_is(&target.name, "String") || !is_primitive_name(&target.name) {
                    Compatibility::Compatible
                } else {
                    Compatibility::Incompatible
                }
            },
            ValueType::Known(s) => self.known_type_compatibility(s, target),
        }
    }

    /// Whether two values may be compared for equality.
    pub fn equality_compatibility(&self, left: &ValueType, right: &ValueType) -> (r: Compatibility)
        ensures
            r == equality_spec(*self, left@, right@),
    {
        if is_numeric(left) && is_numeric(right) {
            return Compatibility::Compatible;
        }
        match (left, right) {
            (ValueType::Void, _) | (_, ValueType::Void) => Compatibility::Incompatible,
            (ValueType::NoneValue, ValueType::NoneValue) => Compatibility::Compatible,
            (ValueType::Known(l), r) => {
                let forward = self.type_compatibility(r, l);
                if forward == Compatibility::Compatible {
                    return forward;
                }
                match r {
                    ValueType::Known(rt) => {
                        let backward = self.type_compatibility(&ValueType::Known(l.copy()), rt);
                        combine_compatibility(forward, backward)
                    },
                    _ => forward,
                }
            },
            (ValueType::NoneValue, ValueType::Known(r)) => self.type_compatibility(&ValueType::NoneValue, r),
        }
    }

    /// Whether a value may be cast to, or tested against, `target`.
    pub fn cast_compatibility(&self, source: &ValueType, target: &TypeRef) -> (r: Compatibility)
        ensures
            r == cast_spec(*self, source@, target@),
    {
        match source {
            ValueType::Void => Compatibility::Incompatible,
            ValueType::NoneValue => self.type_compatibility(source, target),
            ValueType::Known(s) => {
                if s.array || target.array {
                    if s.array == target.array && (strings_match(&s.name, &target.name) || string_is(
                        &s.name,
                        "Var",
                    ) || string_is(&target.name, "Var")) {
                        Compatibility::Compatible
                    } else {
                        Compatibility::Incompatible
                    }
                } else if string_is(&s.name, "Var") || string_is(&target.name, "Var")
                    || is_primitive_name(&target.name) {
                    Compatibility::Compatible
                } else if !is_primitive_name(&s.name) {
                    Compatibility::Compatible
                } else {
                    Compatibility::Incompatible
                }
            },
        }
    }
}


/// `chain` is a line of inheritance: each of its scripts but the last
/// resolves to one script whose parent is the next name of the chain, and
/// no script of it appears twice (ignoring case).
pub open spec fn inheritance_chain(ws: WorkspaceIndex, chain: Seq<Seq<u8>>) -> bool {
    &&& forall|i: int| 0 <= i < chain.len() - 1 ==> (#[trigger] unique_script_spec(ws, chain[i]) matches Resolution::Resolved(d)
        && ws.documents@[d.document as int].semantic.parent_script matches Some(p) && string_bytes(p) == chain[i + 1])
    &&& forall|i: int, j: int| 0 <= i < j < chain.len() - 1 ==> lower_seq(#[trigger] chain[i]) != lower_seq(#[trigger] chain[j])
}

proof fn lemma_chain_walk(ws: WorkspaceIndex, chain: Seq<Seq<u8>>, i: int)
    requires
        2 <= chain.len() <= 65,
        inheritance_chain(ws, chain),
        0 <= i < chain.len() - 1,
    ensures
        inheritance_walk(
            ws,
            chain[i],
            chain.last(),
            chain.subrange(0, i).map_values(|s: Seq<u8>| lower_seq(s)),
            (64 - i) as nat,
        ) == Compatibility::Compatible,
    decreases chain.len() - i,
{
    let n = chain.len() - 1;
    let visited = chain.subrange(0, i).map_values(|s: Seq<u8>| lower_seq(s));
    assert(unique_script_spec(ws, chain[i]) matches Resolution::Resolved(d)
        && ws.documents@[d.document as int].semantic.parent_script matches Some(p) && string_bytes(p) == chain[i + 1]);
    if visited.contains(lower_seq(chain[i])) {
        let k = choose|k: int| 0 <= k < visited.len() && visited[k] == lower_seq(chain[i]);
        assert(lower_seq(chain[k]) != lower_seq(chain[i]));
    }
    if !same_ignoring_case(chain[i + 1], chain.last()) {
        if i + 1 == n {
            assert(same_ignoring_case(chain[n], chain.last()));
        }
        lemma_chain_walk(ws, chain, i + 1);
        assert(chain.subrange(0, i + 1).map_values(|s: Seq<u8>| lower_seq(s)) =~= visited.push(lower_seq(chain[i])));
    }
}

/// A script whose line of ancestors reaches `target` within the depth
/// bound (64 parents) descends from it, however many scripts lie between:
/// parents of parents are followed, not only the direct parent. So a value
/// of such a script may be assigned where `target` is expected.
pub proof fn law_ancestors_are_compatible(ws: WorkspaceIndex, chain: Seq<Seq<u8>>)
    requires
        2 <= chain.len() <= 65,
        inheritance_chain(ws, chain),
    ensures
        inheritance_spec(ws, chain[0], chain.last()) == Compatibility::Compatible,
        !spec_is_primitive_name(chain[0]) && !spec_is_primitive_name(chain.last()) ==> type_compatibility_spec(
            ws,
            ValueTypeView::Known(TypeRefView { name: chain[0], array: false }),
            TypeRefView { name: chain.last(), array: false },
        ) == Compatibility::Compatible,
{
    lemma_chain_walk(ws, chain, 0);
    assert(chain.subrange(0, 0).map_values(|s: Seq<u8>| lower_seq(s)) =~= Seq::<Seq<u8>>::empty());
}
} // verus!
