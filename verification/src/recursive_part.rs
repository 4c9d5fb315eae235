//! The description a part of a recursive operation carries, and the change it
//! was emitted as.

use vstd::prelude::*;

use crate::file_rows::RecursiveOperationRef;
use crate::local_capture::{Emitted, EmittedChange, Op, PreparedLocalMutation};
use crate::rows::views;
use crate::text::{bytes_eq, str_eq};

verus! {

/// What a recursive operation did as a whole: it deleted a tree, or it renamed
/// a directory.
#[derive(Debug, PartialEq, Eq)]
pub enum RecursiveOperationKind {
    RmTree { root: String },
    RenameTree { from: String, to: String },
}

/// The model of a [`RecursiveOperationKind`].
pub enum OperationKind {
    RmTree { root: Seq<char> },
    RenameTree { from: Seq<char>, to: Seq<char> },
}

impl View for RecursiveOperationKind {
    type V = OperationKind;

    open spec fn view(&self) -> OperationKind {
        match self {
            RecursiveOperationKind::RmTree { root } => OperationKind::RmTree { root: root@ },
            RecursiveOperationKind::RenameTree { from, to } => OperationKind::RenameTree {
                from: from@,
                to: to@,
            },
        }
    }
}

/// Which part of which recursive operation a change is: the operation's id and
/// kind, the part's place among all parts, and the digest of every effect of
/// the operation.
#[derive(Debug, PartialEq, Eq)]
pub struct RecursivePart {
    pub operation_id: [u8; 16],
    pub kind: RecursiveOperationKind,
    pub part_index: u32,
    pub part_count: u32,
    pub effect_set_hash: [u8; 32],
}

/// The model of a [`RecursivePart`].
pub struct Part {
    pub id: Seq<u8>,
    pub kind: OperationKind,
    pub index: int,
    pub count: int,
    pub effects: Seq<u8>,
}

impl View for RecursivePart {
    type V = Part;

    open spec fn view(&self) -> Part {
        Part {
            id: self.operation_id@,
            kind: self.kind@,
            index: self.part_index as int,
            count: self.part_count as int,
            effects: self.effect_set_hash@,
        }
    }
}

/// The model of an [`Op`].
pub enum Effect {
    Put { path: Seq<char>, version: Seq<u8> },
    Delete { path: Seq<char> },
    Move { from: Seq<char>, to: Seq<char> },
}

impl View for Op {
    type V = Effect;

    open spec fn view(&self) -> Effect {
        match self {
            Op::Put { path, version } => Effect::Put { path: path@, version: version.0@ },
            Op::Delete { path } => Effect::Delete { path: path@ },
            Op::Move { from, to } => Effect::Move { from: from@, to: to@ },
        }
    }
}

/// One part as it was emitted: the change, the effects it carries in order, and
/// its description.
#[derive(Debug, PartialEq, Eq)]
pub struct EmittedPart {
    pub change: EmittedChange,
    pub ops: Vec<Op>,
    pub part: RecursivePart,
}

/// The model of an [`EmittedPart`].
pub struct PartEmission {
    pub change: Emitted,
    pub effects: Seq<Effect>,
    pub part: Part,
}

impl View for EmittedPart {
    type V = PartEmission;

    open spec fn view(&self) -> PartEmission {
        PartEmission { change: self.change@, effects: views(self.ops@), part: self.part@ }
    }
}

/// The effect of a prepared mutation.
pub open spec fn effect_of(mutation: PreparedLocalMutation) -> Effect {
    match mutation {
        PreparedLocalMutation::Upsert { op, .. } => op@,
        PreparedLocalMutation::Delete { op, .. } => op@,
    }
}

/// The effects of the mutations from `start` to `end`, in order.
pub open spec fn member_effects(
    mutations: Seq<PreparedLocalMutation>,
    start: int,
    end: int,
) -> Seq<Effect> {
    Seq::new((end - start) as nat, |i: int| effect_of(mutations[start + i]))
}

/// The description of part `k` of `count`.
pub open spec fn description(
    operation: RecursiveOperationRef,
    kind: OperationKind,
    k: int,
    count: int,
    effect_set: Seq<u8>,
) -> Part {
    Part { id: operation.operation_id@, kind, index: k, count, effects: effect_set }
}

/// The change carries the effects of the part's own members in order, and the
/// part's own description.
pub open spec fn is_emission_of(
    emission: PartEmission,
    mutations: Seq<PreparedLocalMutation>,
    start: int,
    end: int,
    part: Part,
) -> bool {
    emission.effects == member_effects(mutations, start, end) && emission.part == part
}

/// The effect of a prepared mutation.
pub fn op_of<'a>(mutation: &'a PreparedLocalMutation) -> (op: &'a Op)
    ensures
        op@ == effect_of(*mutation),
{
    match mutation {
        PreparedLocalMutation::Upsert { op, .. } => op,
        PreparedLocalMutation::Delete { op, .. } => op,
    }
}

/// A copy of the kind of an operation.
fn copy_kind(kind: &RecursiveOperationKind) -> (copy: RecursiveOperationKind)
    ensures
        copy@ == kind@,
{
    match kind {
        RecursiveOperationKind::RmTree { root } => RecursiveOperationKind::RmTree {
            root: root.clone(),
        },
        RecursiveOperationKind::RenameTree { from, to } => RecursiveOperationKind::RenameTree {
            from: from.clone(),
            to: to.clone(),
        },
    }
}

/// The description of part `k` of an operation committed in the given parts.
pub fn recursive_part(
    parts: &[(usize, usize)],
    k: usize,
    operation: &RecursiveOperationRef,
    kind: &RecursiveOperationKind,
    effect_set_hash: [u8; 32],
) -> (part: RecursivePart)
    requires
        k < parts@.len(),
        parts@.len() <= u32::MAX,
    ensures
        part.part_index == k,
        part.part_count == parts@.len(),
        part.operation_id == operation.operation_id,
        part.effect_set_hash == effect_set_hash,
        part.kind@ == kind@,
        part@ == description(
            *operation,
            kind@,
            k as int,
            parts@.len() as int,
            effect_set_hash@,
        ),
{
    RecursivePart {
        operation_id: operation.operation_id,
        kind: copy_kind(kind),
        part_index: k as u32,
        part_count: parts.len() as u32,
        effect_set_hash,
    }
}

fn same_op(left: &Op, right: &Op) -> (same: bool)
    ensures
        same == (left@ == right@),
{
    match (left, right) {
        (Op::Put { path: a, version: v }, Op::Put { path: b, version: w }) => {
            str_eq(a.as_str(), b.as_str()) && bytes_eq(
                vstd::array::array_as_slice(&v.0),
                vstd::array::array_as_slice(&w.0),
            )
        },
        (Op::Delete { path: a }, Op::Delete { path: b }) => str_eq(a.as_str(), b.as_str()),
        (Op::Move { from: a, to: c }, Op::Move { from: b, to: d }) => {
            str_eq(a.as_str(), b.as_str()) && str_eq(c.as_str(), d.as_str())
        },
        _ => false,
    }
}

fn same_kind(left: &RecursiveOperationKind, right: &RecursiveOperationKind) -> (same: bool)
    ensures
        same == (left@ == right@),
{
    match (left, right) {
        (
            RecursiveOperationKind::RmTree { root: a },
            RecursiveOperationKind::RmTree { root: b },
        ) => str_eq(a.as_str(), b.as_str()),
        (
            RecursiveOperationKind::RenameTree { from: a, to: c },
            RecursiveOperationKind::RenameTree { from: b, to: d },
        ) => str_eq(a.as_str(), b.as_str()) && str_eq(c.as_str(), d.as_str()),
        _ => false,
    }
}

fn same_part(left: &RecursivePart, right: &RecursivePart) -> (same: bool)
    ensures
        same == (left@ == right@),
{
    bytes_eq(
        vstd::array::array_as_slice(&left.operation_id),
        vstd::array::array_as_slice(&right.operation_id),
    ) && same_kind(&left.kind, &right.kind) && left.part_index == right.part_index
        && left.part_count == right.part_count && bytes_eq(
        vstd::array::array_as_slice(&left.effect_set_hash),
        vstd::array::array_as_slice(&right.effect_set_hash),
    )
}

/// Whether the change carries the effects of the part's own members in order,
/// and the part's own description.
pub fn is_own_emission(
    emission: &EmittedPart,
    mutations: &[PreparedLocalMutation],
    start: usize,
    end: usize,
    part: &RecursivePart,
) -> (own: bool)
    requires
        start <= end <= mutations@.len(),
    ensures
        own == is_emission_of(emission@, mutations@, start as int, end as int, part@),
{
    let ghost carried = views(emission.ops@);
    let ghost wanted = member_effects(mutations@, start as int, end as int);
    if !same_part(&emission.part, part) {
        return false;
    }
    if emission.ops.len() != end - start {
        assert(carried.len() != wanted.len());
        return false;
    }
    let mut i: usize = 0;
    while i < emission.ops.len()
        invariant
            i <= emission.ops@.len(),
            emission.ops@.len() == end - start,
            start <= end <= mutations@.len(),
            carried == views(emission.ops@),
            wanted == member_effects(mutations@, start as int, end as int),
            forall|j: int| 0 <= j < i ==> #[trigger] carried[j] == wanted[j],
        decreases emission.ops@.len() - i,
    {
        assert(carried[i as int] == emission.ops@[i as int]@);
        assert(wanted[i as int] == effect_of(mutations@[start + i]));
        if !same_op(&emission.ops[i], op_of(&mutations[start + i])) {
            assert(carried[i as int] != wanted[i as int]);
            return false;
        }
        i += 1;
    }
    assert(carried =~= wanted);
    true
}

} // verus!
