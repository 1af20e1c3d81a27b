use vstd::prelude::*;
use crate::module::{ends_with_return, last_opcode_from};
use crate::opcodes::{
    operand_count, BIN_ADD, BIN_GREATER_THAN_EQUAL, BUILD_LIST, CALL_FUNCTION, INC_ONE, JUMP,
    JUMP_ABSOLUTE, JUMP_IF_FALSE, LOAD_CONST, LOAD_FALSE, LOAD_FAST, LOAD_NONE, LOAD_TRUE, RETURN,
    STORE_FAST,
};

verus! {

/// The place of the opcode after the instruction at `pos`.
pub open spec fn next_opcode(code: Seq<u8>, pos: int) -> int {
    pos + 1 + operand_count(code[pos])
}

/// Reading `code` instruction by instruction from the opcode at `from` comes
/// to an opcode at `pos`, or to the end of the code there.
pub open spec fn reaches(code: Seq<u8>, from: int, pos: int) -> bool
    decreases pos - from,
{
    if from == pos {
        true
    } else if from < 0 || from >= code.len() || next_opcode(code, from) > pos {
        false
    } else {
        reaches(code, next_opcode(code, from), pos)
    }
}

/// `pos` is the place of an opcode, or the end of the last instruction, when
/// `code` is read from its start.
pub open spec fn boundary(code: Seq<u8>, pos: int) -> bool {
    reaches(code, 0, pos)
}

/// The first `a.len()` bytes of `b` are those of `a`.
pub open spec fn is_prefix(a: Seq<u8>, b: Seq<u8>) -> bool {
    a.len() <= b.len() && forall|i: int| 0 <= i < a.len() ==> b[i] == a[i]
}

/// A reading never goes backwards.
pub proof fn lemma_reaches_order(code: Seq<u8>, from: int, pos: int)
    requires
        reaches(code, from, pos),
    ensures
        from <= pos,
{
}

/// Reading on from where a reading ended is one reading.
pub proof fn lemma_reaches_twice(code: Seq<u8>, from: int, mid: int, pos: int)
    requires
        reaches(code, from, mid),
        reaches(code, mid, pos),
    ensures
        reaches(code, from, pos),
    decreases mid - from,
{
    if from != mid {
        lemma_reaches_order(code, mid, pos);
        lemma_reaches_twice(code, next_opcode(code, from), mid, pos);
    }
}

/// A reading that comes to two places comes to the nearer one first.
pub proof fn lemma_reaches_between(code: Seq<u8>, from: int, mid: int, pos: int)
    requires
        reaches(code, from, mid),
        reaches(code, from, pos),
        mid <= pos,
    ensures
        reaches(code, mid, pos),
    decreases mid - from,
{
    if from != mid {
        lemma_reaches_between(code, next_opcode(code, from), mid, pos);
    }
}

/// A reading depends only on the bytes it passes.
pub proof fn lemma_reaches_same(first: Seq<u8>, second: Seq<u8>, from: int, pos: int)
    requires
        0 <= from,
        pos <= first.len(),
        pos <= second.len(),
        forall|i: int| from <= i < pos ==> first[i] == second[i],
    ensures
        reaches(first, from, pos) == reaches(second, from, pos),
    decreases pos - from,
{
    if from < pos && next_opcode(first, from) <= pos {
        lemma_reaches_same(first, second, next_opcode(first, from), pos);
    }
}

/// No opcode stands among the operands of an instruction.
pub proof fn lemma_not_inside(code: Seq<u8>, at: int, pos: int)
    requires
        boundary(code, at),
        0 <= at < code.len(),
        at < pos < next_opcode(code, at),
    ensures
        !boundary(code, pos),
{
    if boundary(code, pos) {
        lemma_reaches_between(code, 0, at, pos);
        assert(reaches(code, next_opcode(code, at), pos));
    }
}

/// In code that ends with a whole instruction every instruction is whole.
pub proof fn lemma_whole(code: Seq<u8>, at: int)
    requires
        boundary(code, code.len() as int),
        boundary(code, at),
        0 <= at < code.len(),
    ensures
        next_opcode(code, at) <= code.len(),
{
    if next_opcode(code, at) > code.len() {
        lemma_not_inside(code, at, code.len() as int);
    }
}

/// The opcodes of a piece of code are opcodes of every code that begins
/// with it.
pub proof fn lemma_prefix_boundary(code: Seq<u8>, longer: Seq<u8>, pos: int)
    requires
        is_prefix(code, longer),
        pos <= code.len(),
    ensures
        boundary(code, pos) == boundary(longer, pos),
{
    lemma_reaches_same(code, longer, 0, pos);
}

/// Writing an operand leaves every opcode where it is.
proof fn lemma_operand_kept(code: Seq<u8>, at: int, value: u8, pos: int)
    requires
        boundary(code, at),
        0 <= at,
        at + 1 < code.len(),
        operand_count(code[at]) >= 1,
        boundary(code, pos),
        pos <= code.len(),
    ensures
        boundary(code.update(at + 1, value), pos),
{
    let after = code.update(at + 1, value);
    if pos <= at {
        lemma_reaches_same(code, after, 0, pos);
    } else {
        lemma_reaches_between(code, 0, at, pos);
        let next = next_opcode(code, at);
        assert(reaches(code, next, pos));
        lemma_reaches_order(code, next, pos);
        lemma_reaches_same(code, after, next, pos);
        assert(after[at] == code[at]);
        assert(reaches(after, at, pos));
        lemma_reaches_same(code, after, 0, at);
        lemma_reaches_twice(after, 0, at, pos);
    }
}

/// Writing an operand neither moves nor adds an opcode.
proof fn lemma_operand_same(code: Seq<u8>, at: int, value: u8, pos: int)
    requires
        boundary(code, at),
        0 <= at,
        at + 1 < code.len(),
        operand_count(code[at]) >= 1,
        pos <= code.len(),
    ensures
        boundary(code.update(at + 1, value), pos) == boundary(code, pos),
{
    let after = code.update(at + 1, value);
    if boundary(code, pos) {
        lemma_operand_kept(code, at, value, pos);
    }
    if boundary(after, pos) {
        lemma_operand_kept(code, at, value, at);
        assert(after.update(at + 1, code[at + 1]) =~= code);
        lemma_operand_kept(after, at, code[at + 1], pos);
    }
}

/// Whether `op` jumps forward by a distance.
pub open spec fn is_jump(op: u8) -> bool {
    op == JUMP || op == JUMP_IF_FALSE
}

/// The instruction at the opcode `p` is no `RETURN`; if it is a forward jump
/// whose distance is set, or a jump back, it lands on an opcode of the code or
/// at its end.
pub open spec fn lands(code: Seq<u8>, p: int, pending: Set<int>) -> bool {
    &&& code[p] != RETURN
    &&& is_jump(code[p]) && !pending.contains(p + 1) ==> boundary(code, p + 2 + code[p + 1]) && p
        + 2 + code[p + 1] <= code.len()
    &&& code[p] == JUMP_ABSOLUTE ==> boundary(code, code[p + 1] as int) && code[p + 1]
        < code.len()
}

/// `j` is the place of the distance of a forward jump.
pub open spec fn awaits(code: Seq<u8>, j: int) -> bool {
    1 <= j < code.len() && boundary(code, j - 1) && is_jump(code[j - 1])
}

/// The code of a function under construction is in order: it ends with a
/// whole instruction, it holds no `RETURN`, each place in `pending` is the
/// distance of a forward jump, and every other jump lands on an opcode of the
/// code or at its end.
#[verifier::opaque]
pub open spec fn well_formed(code: Seq<u8>, pending: Set<int>) -> bool {
    &&& boundary(code, code.len() as int)
    &&& forall|p: int| 0 <= p < code.len() && #[trigger] boundary(code, p) ==> lands(
        code,
        p,
        pending,
    )
    &&& forall|j: int| #[trigger] pending.contains(j) ==> awaits(code, j)
}

/// Empty code is in order, with no distance to be set.
pub proof fn lemma_empty_well_formed()
    ensures
        well_formed(Seq::<u8>::empty(), Set::<int>::empty()),
{
    reveal(well_formed);
}

/// Code in order ends where an instruction would begin.
pub proof fn lemma_end_is_boundary(code: Seq<u8>, pending: Set<int>)
    requires
        well_formed(code, pending),
    ensures
        boundary(code, code.len() as int),
{
    reveal(well_formed);
}

/// A distance still to be set stands inside the code, behind an opcode.
pub proof fn lemma_pending_inside(code: Seq<u8>, pending: Set<int>, j: int)
    requires
        well_formed(code, pending),
        pending.contains(j),
    ensures
        1 <= j < code.len(),
{
    reveal(well_formed);
}

/// What appending an instruction at the end keeps: the opcodes of the code,
/// where its jumps land, and the distances that are still to be set.
pub proof fn lemma_appended(code: Seq<u8>, pending: Set<int>, instr: Seq<u8>)
    requires
        well_formed(code, pending),
        instr.len() == 1 + operand_count(instr[0]),
    ensures
        boundary(code + instr, code.len() as int),
        boundary(code + instr, (code + instr).len() as int),
        forall|p: int|
            code.len() < p < (code + instr).len() ==> !#[trigger] boundary(code + instr, p),
        forall|p: int|
            0 <= p < code.len() && #[trigger] boundary(code + instr, p) ==> lands(
                code + instr,
                p,
                pending,
            ),
        forall|j: int| #[trigger] pending.contains(j) ==> awaits(code + instr, j),
{
    reveal(well_formed);
    let after = code + instr;
    let len = code.len() as int;
    lemma_reaches_same(code, after, 0, len);
    assert(after[len] == instr[0]);
    assert(next_opcode(after, len) == after.len());
    assert(reaches(after, after.len() as int, after.len() as int));
    assert(reaches(after, len, after.len() as int));
    lemma_reaches_twice(after, 0, len, after.len() as int);
    assert forall|p: int| len < p < after.len() implies !#[trigger] boundary(after, p) by {
        lemma_not_inside(after, len, p);
    }
    assert forall|p: int| 0 <= p < len && #[trigger] boundary(after, p) implies lands(
        after,
        p,
        pending,
    ) by {
        lemma_reaches_same(code, after, 0, p);
        assert(boundary(code, p));
        assert(lands(code, p, pending));
        lemma_whole(code, p);
        assert(after[p] == code[p]);
        if is_jump(code[p]) || code[p] == JUMP_ABSOLUTE {
            assert(after[p + 1] == code[p + 1]);
            if is_jump(code[p]) && !pending.contains(p + 1) {
                lemma_reaches_same(code, after, 0, p + 2 + code[p + 1]);
            }
            if code[p] == JUMP_ABSOLUTE {
                lemma_reaches_same(code, after, 0, code[p + 1] as int);
            }
        }
    }
    assert forall|j: int| #[trigger] pending.contains(j) implies awaits(after, j) by {
        assert(awaits(code, j));
        lemma_reaches_same(code, after, 0, j - 1);
        assert(after[j - 1] == code[j - 1]);
    }
}

/// An instruction that is neither a jump nor `RETURN` may be appended.
pub proof fn lemma_emit_plain(code: Seq<u8>, pending: Set<int>, instr: Seq<u8>)
    requires
        well_formed(code, pending),
        instr.len() == 1 + operand_count(instr[0]),
        !is_jump(instr[0]),
        instr[0] != JUMP_ABSOLUTE,
        instr[0] != RETURN,
    ensures
        well_formed(code + instr, pending),
{
    lemma_appended(code, pending, instr);
    reveal(well_formed);
    let after = code + instr;
    assert(after[code.len() as int] == instr[0]);
    assert forall|p: int| 0 <= p < after.len() && #[trigger] boundary(after, p) implies lands(
        after,
        p,
        pending,
    ) by {
        if p > code.len() {
            assert(!boundary(after, p));
        }
    }
}

/// A forward jump may be appended; its distance is then still to be set.
pub proof fn lemma_emit_jump(code: Seq<u8>, pending: Set<int>, op: u8)
    requires
        well_formed(code, pending),
        is_jump(op),
    ensures
        well_formed(code + seq![op, 0u8], pending.insert(code.len() as int + 1)),
{
    let instr = seq![op, 0u8];
    lemma_appended(code, pending, instr);
    reveal(well_formed);
    let after = code + instr;
    let more = pending.insert(code.len() as int + 1);
    assert(after[code.len() as int] == op);
    assert forall|p: int| 0 <= p < after.len() && #[trigger] boundary(after, p) implies lands(
        after,
        p,
        more,
    ) by {
        if p > code.len() {
            assert(!boundary(after, p));
        } else if p < code.len() {
            assert(lands(after, p, pending));
        }
    }
    assert forall|j: int| #[trigger] more.contains(j) implies awaits(after, j) by {
        if j != code.len() + 1 {
            assert(pending.contains(j));
        }
    }
}

/// A jump back to an opcode of the code may be appended.
pub proof fn lemma_emit_jump_back(code: Seq<u8>, pending: Set<int>, target: int)
    requires
        well_formed(code, pending),
        boundary(code, target),
        0 <= target <= code.len(),
        target <= 255,
    ensures
        well_formed(code + seq![JUMP_ABSOLUTE, target as u8], pending),
{
    let instr = seq![JUMP_ABSOLUTE, target as u8];
    lemma_appended(code, pending, instr);
    reveal(well_formed);
    let after = code + instr;
    assert(after[code.len() as int] == JUMP_ABSOLUTE);
    assert(after[code.len() as int + 1] == target as u8);
    lemma_reaches_same(code, after, 0, target);
    assert forall|p: int| 0 <= p < after.len() && #[trigger] boundary(after, p) implies lands(
        after,
        p,
        pending,
    ) by {
        if p > code.len() {
            assert(!boundary(after, p));
        }
    }
}

/// A distance that is still to be set may be set so that the jump lands at
/// the end of the code.
pub proof fn lemma_patch(code: Seq<u8>, rest: Set<int>, j: int)
    requires
        well_formed(code, rest.insert(j)),
        !rest.contains(j),
        code.len() - 1 - j <= 255,
    ensures
        well_formed(code.update(j, (code.len() - 1 - j) as u8), rest),
{
    reveal(well_formed);
    let pending = rest.insert(j);
    let value = (code.len() - 1 - j) as u8;
    let after = code.update(j, value);
    let at = j - 1;
    assert(pending.contains(j));
    assert(awaits(code, j));
    assert forall|p: int| p <= code.len() implies boundary(after, p) == boundary(code, p) by {
        lemma_operand_same(code, at, value, p);
    }
    assert forall|p: int| 0 <= p < after.len() && #[trigger] boundary(after, p) implies lands(
        after,
        p,
        rest,
    ) by {
        assert(boundary(code, p));
        assert(lands(code, p, pending));
        lemma_whole(code, p);
        if p == at {
            assert(after[p + 1] == value);
            assert(p + 2 + after[p + 1] == code.len());
        } else {
            if p == j {
                lemma_not_inside(code, at, j);
            }
            assert(after[p] == code[p]);
            if is_jump(code[p]) || code[p] == JUMP_ABSOLUTE {
                assert(after[p + 1] == code[p + 1]);
                if is_jump(code[p]) && !rest.contains(p + 1) {
                    assert(!pending.contains(p + 1));
                }
            }
        }
    }
    assert forall|k: int| #[trigger] rest.contains(k) implies awaits(after, k) by {
        assert(pending.contains(k));
        assert(awaits(code, k));
        if k - 1 == j {
            lemma_not_inside(code, at, j);
        }
        assert(after[k - 1] == code[k - 1]);
    }
}

/// A finished function is in order: it is not empty and ends with a whole
/// instruction, which is `RETURN`, and every jump in it lands on an opcode
/// inside it.
pub open spec fn sound_code(code: Seq<u8>) -> bool {
    &&& code.len() > 0
    &&& boundary(code, code.len() as int)
    &&& boundary(code, code.len() - 1)
    &&& code[code.len() - 1] == RETURN
    &&& forall|p: int| 0 <= p < code.len() && #[trigger] boundary(code, p) ==> jumps_inside(code, p)
}

/// If the instruction at the opcode `p` is a jump, it is whole and lands on
/// an opcode inside the code.
pub open spec fn jumps_inside(code: Seq<u8>, p: int) -> bool {
    &&& is_jump(code[p]) ==> p + 1 < code.len() && boundary(code, p + 2 + code[p + 1]) && p + 2
        + code[p + 1] < code.len()
    &&& code[p] == JUMP_ABSOLUTE ==> p + 1 < code.len() && boundary(code, code[p + 1] as int)
        && code[p + 1] < code.len()
}

/// The last instruction that a reading finds stands on an opcode.
pub proof fn lemma_last_opcode(code: Seq<u8>, from: int)
    requires
        last_opcode_from(code, from) is Some,
    ensures
        reaches(code, from, last_opcode_from(code, from)->Some_0),
        0 <= from <= last_opcode_from(code, from)->Some_0 < code.len(),
    decreases code.len() - from,
{
    let next = from + 1 + operand_count(code[from]);
    if next < code.len() {
        lemma_last_opcode(code, next);
    }
}

/// Code in order, with no distance left to set, does not end with `RETURN`,
/// and with a `RETURN` at its end it is a finished function in order.
pub proof fn lemma_finish(code: Seq<u8>)
    requires
        well_formed(code, Set::<int>::empty()),
    ensures
        !ends_with_return(code),
        sound_code(code.push(RETURN)),
{
    reveal(well_formed);
    let none = Set::<int>::empty();
    if last_opcode_from(code, 0) is Some {
        lemma_last_opcode(code, 0);
        let last = last_opcode_from(code, 0)->Some_0;
        assert(boundary(code, last));
        assert(lands(code, last, none));
    }
    let instr = seq![RETURN];
    assert(code.push(RETURN) =~= code + instr);
    lemma_appended(code, none, instr);
    let after = code + instr;
    assert(after[code.len() as int] == RETURN);
    assert forall|p: int| 0 <= p < after.len() && #[trigger] boundary(
        after,
        p,
    ) implies jumps_inside(
        after,
        p,
    ) by {
        if p < code.len() {
            lemma_reaches_same(code, after, 0, p);
            assert(boundary(code, p));
            assert(lands(code, p, none));
            lemma_whole(code, p);
            assert(after[p] == code[p]);
            if is_jump(code[p]) {
                assert(after[p + 1] == code[p + 1]);
                lemma_reaches_same(code, after, 0, p + 2 + code[p + 1]);
            }
            if code[p] == JUMP_ABSOLUTE {
                assert(after[p + 1] == code[p + 1]);
                lemma_reaches_same(code, after, 0, code[p + 1] as int);
            }
        }
    }
}

/// The slot that the instruction at `p` stores to, if it is a store.
pub open spec fn stored(code: Seq<u8>, p: int) -> Set<u8> {
    if code[p] == STORE_FAST {
        set![code[p + 1]]
    } else {
        Set::empty()
    }
}

/// After the instruction the machine may go on with the next one.
pub open spec fn falls_through(op: u8) -> bool {
    op != JUMP && op != JUMP_ABSOLUTE && op != RETURN
}

/// The notes `at` fit the instruction at the opcode `p`. A note is a set of
/// slots that are set whenever the machine comes to the place of the note.
/// The instruction reads only a slot of its note; and the note of each place
/// that the machine may go to from it holds only slots of its own note and
/// the slot that it stores to. For a jump whose distance is still to be set,
/// `owed` holds what may be noted at the place where it will land.
pub open spec fn flows(
    code: Seq<u8>,
    p: int,
    at: Map<int, Set<u8>>,
    owed: Map<int, Set<u8>>,
) -> bool {
    &&& at.contains_key(p)
    &&& (code[p] == LOAD_FAST ==> at[p].contains(code[p + 1]))
    &&& (falls_through(code[p]) ==> at.contains_key(next_opcode(code, p)) && at[next_opcode(
        code,
        p,
    )].subset_of(at[p].union(stored(code, p))))
    &&& (is_jump(code[p]) && owed.contains_key(p + 1) ==> owed[p + 1].subset_of(at[p]))
    &&& (is_jump(code[p]) && !owed.contains_key(p + 1) ==> at.contains_key(p + 2 + code[p + 1])
        && at[p + 2 + code[p + 1]].subset_of(at[p]))
    &&& (code[p] == JUMP_ABSOLUTE ==> at.contains_key(code[p + 1] as int) && at[code[p
        + 1] as int].subset_of(at[p]))
}

/// The notes fit the code: its end has a note, and the notes fit every
/// instruction.
#[verifier::opaque]
pub open spec fn noted(code: Seq<u8>, at: Map<int, Set<u8>>, owed: Map<int, Set<u8>>) -> bool {
    &&& at.contains_key(code.len() as int)
    &&& forall|p: int| 0 <= p < code.len() && #[trigger] boundary(code, p) ==> flows(
        code,
        p,
        at,
        owed,
    )
}

/// Empty code carries any one note at its start.
pub proof fn lemma_noted_empty(first: Set<u8>)
    ensures
        noted(Seq::<u8>::empty(), map![0int => first], Map::<int, Set<u8>>::empty()),
{
    reveal(noted);
}

/// Noted code has a note at its end.
pub proof fn lemma_noted_end(code: Seq<u8>, at: Map<int, Set<u8>>, owed: Map<int, Set<u8>>)
    requires
        noted(code, at, owed),
    ensures
        at.contains_key(code.len() as int),
{
    reveal(noted);
}

/// What the notes of code in order keep when an instruction is appended and
/// the new end gets a note.
proof fn lemma_noted_appended(
    code: Seq<u8>,
    at: Map<int, Set<u8>>,
    owed: Map<int, Set<u8>>,
    instr: Seq<u8>,
    end: Set<u8>,
    more: Map<int, Set<u8>>,
)
    requires
        well_formed(code, owed.dom()),
        noted(code, at, owed),
        instr.len() == 1 + operand_count(instr[0]),
        forall|j: int| owed.contains_key(j) ==> more.contains_key(j) && more[j] == owed[j],
        forall|j: int| more.contains_key(j) ==> owed.contains_key(j) || j > code.len(),
    ensures
        forall|p: int|
            0 <= p < code.len() && #[trigger] boundary(code + instr, p) ==> flows(
                code + instr,
                p,
                at.insert((code + instr).len() as int, end),
                more,
            ),
{
    reveal(well_formed);
    reveal(noted);
    let after = code + instr;
    let notes = at.insert(after.len() as int, end);
    assert forall|p: int| 0 <= p < code.len() && #[trigger] boundary(after, p) implies flows(
        after,
        p,
        notes,
        more,
    ) by {
        lemma_reaches_same(code, after, 0, p);
        assert(boundary(code, p));
        assert(flows(code, p, at, owed));
        assert(lands(code, p, owed.dom()));
        lemma_whole(code, p);
        assert(after[p] == code[p]);
        if operand_count(code[p]) >= 1 {
            assert(after[p + 1] == code[p + 1]);
        }
        assert(next_opcode(after, p) == next_opcode(code, p));
        assert(stored(after, p) == stored(code, p));
    }
}

/// An instruction that is no jump may be appended; the note of the new end
/// holds what was noted before it and the slot that it stores to.
pub proof fn lemma_noted_plain(
    code: Seq<u8>,
    at: Map<int, Set<u8>>,
    owed: Map<int, Set<u8>>,
    instr: Seq<u8>,
)
    requires
        well_formed(code, owed.dom()),
        noted(code, at, owed),
        instr.len() == 1 + operand_count(instr[0]),
        !is_jump(instr[0]),
        instr[0] != JUMP_ABSOLUTE,
        instr[0] == LOAD_FAST ==> at[code.len() as int].contains(instr[1]),
    ensures
        noted(
            code + instr,
            at.insert(
                (code + instr).len() as int,
                at[code.len() as int].union(stored(instr, 0)),
            ),
            owed,
        ),
{
    lemma_appended(code, owed.dom(), instr);
    let after = code + instr;
    let end = at[code.len() as int].union(stored(instr, 0));
    lemma_noted_appended(code, at, owed, instr, end, owed);
    reveal(noted);
    reveal(well_formed);
    let notes = at.insert(after.len() as int, end);
    assert(after[code.len() as int] == instr[0]);
    if operand_count(instr[0]) >= 1 {
        assert(after[code.len() as int + 1] == instr[1]);
    }
    assert(stored(after, code.len() as int) == stored(instr, 0));
    assert forall|p: int| 0 <= p < after.len() && #[trigger] boundary(after, p) implies flows(
        after,
        p,
        notes,
        owed,
    ) by {
        if p > code.len() {
            assert(!boundary(after, p));
        }
    }
}

/// A forward jump may be appended. What is noted where it stands is owed to
/// the place where it will land. The new end gets the note `end`, which after
/// a conditional jump must hold only what was noted before it.
pub proof fn lemma_noted_jump(
    code: Seq<u8>,
    at: Map<int, Set<u8>>,
    owed: Map<int, Set<u8>>,
    op: u8,
    end: Set<u8>,
)
    requires
        well_formed(code, owed.dom()),
        noted(code, at, owed),
        is_jump(op),
        op == JUMP_IF_FALSE ==> end.subset_of(at[code.len() as int]),
    ensures
        noted(
            code + seq![op, 0u8],
            at.insert(code.len() as int + 2, end),
            owed.insert(code.len() as int + 1, at[code.len() as int]),
        ),
{
    let instr = seq![op, 0u8];
    lemma_appended(code, owed.dom(), instr);
    let after = code + instr;
    let more = owed.insert(code.len() as int + 1, at[code.len() as int]);
    if owed.contains_key(code.len() as int + 1) {
        lemma_pending_inside(code, owed.dom(), code.len() as int + 1);
    }
    lemma_noted_appended(code, at, owed, instr, end, more);
    reveal(noted);
    reveal(well_formed);
    let notes = at.insert(after.len() as int, end);
    assert(after[code.len() as int] == op);
    assert forall|p: int| 0 <= p < after.len() && #[trigger] boundary(after, p) implies flows(
        after,
        p,
        notes,
        more,
    ) by {
        if p > code.len() {
            assert(!boundary(after, p));
        }
    }
}

/// A jump back may be appended when what is noted at its target is noted
/// where it stands. The new end gets the note `end`.
pub proof fn lemma_noted_jump_back(
    code: Seq<u8>,
    at: Map<int, Set<u8>>,
    owed: Map<int, Set<u8>>,
    target: int,
    end: Set<u8>,
)
    requires
        well_formed(code, owed.dom()),
        noted(code, at, owed),
        0 <= target <= code.len(),
        target <= 255,
        at.contains_key(target),
        at[target].subset_of(at[code.len() as int]),
    ensures
        noted(
            code + seq![JUMP_ABSOLUTE, target as u8],
            at.insert(code.len() as int + 2, end),
            owed,
        ),
{
    let instr = seq![JUMP_ABSOLUTE, target as u8];
    lemma_appended(code, owed.dom(), instr);
    let after = code + instr;
    lemma_noted_appended(code, at, owed, instr, end, owed);
    reveal(noted);
    reveal(well_formed);
    let notes = at.insert(after.len() as int, end);
    assert(after[code.len() as int] == JUMP_ABSOLUTE);
    assert(after[code.len() as int + 1] == target as u8);
    assert forall|p: int| 0 <= p < after.len() && #[trigger] boundary(after, p) implies flows(
        after,
        p,
        notes,
        owed,
    ) by {
        if p > code.len() {
            assert(!boundary(after, p));
        }
    }
}

/// The note of the end may be made smaller.
pub proof fn lemma_noted_less(
    code: Seq<u8>,
    at: Map<int, Set<u8>>,
    owed: Map<int, Set<u8>>,
    end: Set<u8>,
)
    requires
        well_formed(code, owed.dom()),
        noted(code, at, owed),
        end.subset_of(at[code.len() as int]),
    ensures
        noted(code, at.insert(code.len() as int, end), owed),
{
    reveal(noted);
    reveal(well_formed);
    let notes = at.insert(code.len() as int, end);
    assert forall|p: int| 0 <= p < code.len() && #[trigger] boundary(code, p) implies flows(
        code,
        p,
        notes,
        owed,
    ) by {
        assert(flows(code, p, at, owed));
    }
}

/// The distance of a jump may be set when what is noted at the end of the
/// code is what was owed to the place where the jump lands.
pub proof fn lemma_noted_patch(
    code: Seq<u8>,
    at: Map<int, Set<u8>>,
    rest: Map<int, Set<u8>>,
    j: int,
    due: Set<u8>,
)
    requires
        well_formed(code, rest.dom().insert(j)),
        noted(code, at, rest.insert(j, due)),
        !rest.contains_key(j),
        code.len() - 1 - j <= 255,
        at[code.len() as int].subset_of(due),
    ensures
        noted(code.update(j, (code.len() - 1 - j) as u8), at, rest),
{
    reveal(noted);
    reveal(well_formed);
    let owed = rest.insert(j, due);
    let pending = rest.dom().insert(j);
    let value = (code.len() - 1 - j) as u8;
    let after = code.update(j, value);
    let q = j - 1;
    assert(pending.contains(j));
    assert(awaits(code, j));
    assert forall|p: int| p <= code.len() implies boundary(after, p) == boundary(code, p) by {
        lemma_operand_same(code, q, value, p);
    }
    assert forall|p: int| 0 <= p < after.len() && #[trigger] boundary(after, p) implies flows(
        after,
        p,
        at,
        rest,
    ) by {
        assert(boundary(code, p));
        assert(flows(code, p, at, owed));
        assert(lands(code, p, pending));
        lemma_whole(code, p);
        if p == q {
            assert(after[p + 1] == value);
            assert(p + 2 + after[p + 1] == code.len());
            assert(owed.contains_key(p + 1));
            assert(owed[p + 1] == due);
        } else {
            if p == j {
                lemma_not_inside(code, q, j);
            }
            assert(after[p] == code[p]);
            if operand_count(code[p]) >= 1 {
                assert(after[p + 1] == code[p + 1]);
            }
            assert(next_opcode(after, p) == next_opcode(code, p));
            assert(stored(after, p) == stored(code, p));
            assert(owed.contains_key(p + 1) == rest.contains_key(p + 1));
            if rest.contains_key(p + 1) {
                assert(owed[p + 1] == rest[p + 1]);
            }
        }
    }
}

/// How many values the instruction at `p` takes off the stack.
pub open spec fn pops(code: Seq<u8>, p: int) -> int {
    let op = code[p];
    if op == RETURN || op == JUMP_IF_FALSE || op == STORE_FAST || op == INC_ONE {
        1
    } else if BIN_ADD <= op <= BIN_GREATER_THAN_EQUAL {
        2
    } else if op == CALL_FUNCTION {
        code[p + 2] as int
    } else if op == BUILD_LIST {
        code[p + 1] as int
    } else {
        0
    }
}

/// How many values the instruction at `p` puts on the stack.
pub open spec fn pushes(code: Seq<u8>, p: int) -> int {
    let op = code[p];
    if (BIN_ADD <= op <= BIN_GREATER_THAN_EQUAL) || op == INC_ONE || op == CALL_FUNCTION || op
        == BUILD_LIST || op == LOAD_CONST || op == LOAD_FAST || op == LOAD_TRUE || op == LOAD_FALSE
        || op == LOAD_NONE {
        1
    } else {
        0
    }
}

/// The depths `at` fit the instruction at the opcode `p`. A depth is the
/// number of values on the stack whenever the machine comes to its place,
/// counted from the stack with which the function starts. At each place that
/// the machine may go to from the instruction, the depth is what the
/// instruction leaves. For a jump whose distance is still to be set, `owed`
/// holds the depth at the place where it will land. Where `strict`, the stack
/// also holds what the instruction takes.
pub open spec fn levels(
    code: Seq<u8>,
    p: int,
    at: Map<int, int>,
    owed: Map<int, int>,
    strict: bool,
) -> bool {
    &&& at.contains_key(p)
    &&& (strict ==> at[p] >= pops(code, p))
    &&& (falls_through(code[p]) ==> at.contains_key(next_opcode(code, p)) && at[next_opcode(
        code,
        p,
    )] == at[p] - pops(code, p) + pushes(code, p))
    &&& (is_jump(code[p]) && owed.contains_key(p + 1) ==> owed[p + 1] == at[p] - pops(code, p))
    &&& (is_jump(code[p]) && !owed.contains_key(p + 1) ==> at.contains_key(p + 2 + code[p + 1])
        && at[p + 2 + code[p + 1]] == at[p] - pops(code, p))
    &&& (code[p] == JUMP_ABSOLUTE ==> at.contains_key(code[p + 1] as int) && at[code[p
        + 1] as int] == at[p])
}

/// The depths fit the code: its end has a depth, and the depths fit every
/// instruction.
#[verifier::opaque]
pub open spec fn levelled(
    code: Seq<u8>,
    at: Map<int, int>,
    owed: Map<int, int>,
    strict: bool,
) -> bool {
    &&& at.contains_key(code.len() as int)
    &&& forall|p: int|
        0 <= p < code.len() && #[trigger] boundary(code, p) ==> levels(code, p, at, owed, strict)
}

/// Empty code carries any one depth at its start.
pub proof fn lemma_levelled_empty(first: int, strict: bool)
    ensures
        levelled(Seq::<u8>::empty(), map![0int => first], Map::<int, int>::empty(), strict),
{
    reveal(levelled);
}

/// Levelled code has a depth at its end.
pub proof fn lemma_levelled_end(
    code: Seq<u8>,
    at: Map<int, int>,
    owed: Map<int, int>,
    strict: bool,
)
    requires
        levelled(code, at, owed, strict),
    ensures
        at.contains_key(code.len() as int),
{
    reveal(levelled);
}

/// What the depths of code in order keep when an instruction is appended
/// and the new end gets a depth.
proof fn lemma_levelled_appended(
    code: Seq<u8>,
    at: Map<int, int>,
    owed: Map<int, int>,
    instr: Seq<u8>,
    end: int,
    more: Map<int, int>,
    strict: bool,
)
    requires
        well_formed(code, owed.dom()),
        levelled(code, at, owed, strict),
        instr.len() == 1 + operand_count(instr[0]),
        forall|j: int| owed.contains_key(j) ==> more.contains_key(j) && more[j] == owed[j],
        forall|j: int| more.contains_key(j) ==> owed.contains_key(j) || j > code.len(),
    ensures
        forall|p: int|
            0 <= p < code.len() && #[trigger] boundary(code + instr, p) ==> levels(
                code + instr,
                p,
                at.insert((code + instr).len() as int, end),
                more,
                strict,
            ),
{
    reveal(well_formed);
    reveal(levelled);
    let after = code + instr;
    let notes = at.insert(after.len() as int, end);
    assert forall|p: int| 0 <= p < code.len() && #[trigger] boundary(after, p) implies levels(
        after,
        p,
        notes,
        more,
        strict,
    ) by {
        lemma_reaches_same(code, after, 0, p);
        assert(boundary(code, p));
        assert(levels(code, p, at, owed, strict));
        assert(lands(code, p, owed.dom()));
        lemma_whole(code, p);
        assert(after[p] == code[p]);
        if operand_count(code[p]) >= 1 {
            assert(after[p + 1] == code[p + 1]);
        }
        if operand_count(code[p]) >= 2 {
            assert(after[p + 2] == code[p + 2]);
        }
        assert(next_opcode(after, p) == next_opcode(code, p));
        assert(pops(after, p) == pops(code, p));
        assert(pushes(after, p) == pushes(code, p));
    }
}

/// An instruction that is no jump may be appended, where `strict` only if
/// the stack holds what it takes; the depth of the new end is what it leaves.
pub proof fn lemma_levelled_plain(
    code: Seq<u8>,
    at: Map<int, int>,
    owed: Map<int, int>,
    instr: Seq<u8>,
    strict: bool,
)
    requires
        well_formed(code, owed.dom()),
        levelled(code, at, owed, strict),
        instr.len() == 1 + operand_count(instr[0]),
        !is_jump(instr[0]),
        instr[0] != JUMP_ABSOLUTE,
        strict ==> at[code.len() as int] >= pops(instr, 0),
    ensures
        levelled(
            code + instr,
            at.insert(
                (code + instr).len() as int,
                at[code.len() as int] - pops(instr, 0) + pushes(instr, 0),
            ),
            owed,
            strict,
        ),
{
    lemma_appended(code, owed.dom(), instr);
    let after = code + instr;
    let end = at[code.len() as int] - pops(instr, 0) + pushes(instr, 0);
    lemma_levelled_appended(code, at, owed, instr, end, owed, strict);
    reveal(levelled);
    reveal(well_formed);
    let notes = at.insert(after.len() as int, end);
    assert(after[code.len() as int] == instr[0]);
    if operand_count(instr[0]) >= 1 {
        assert(after[code.len() as int + 1] == instr[1]);
    }
    if operand_count(instr[0]) >= 2 {
        assert(after[code.len() as int + 2] == instr[2]);
    }
    assert(pops(after, code.len() as int) == pops(instr, 0));
    assert(pushes(after, code.len() as int) == pushes(instr, 0));
    assert forall|p: int| 0 <= p < after.len() && #[trigger] boundary(after, p) implies levels(
        after,
        p,
        notes,
        owed,
        strict,
    ) by {
        if p > code.len() {
            assert(!boundary(after, p));
        }
    }
}

/// A forward jump may be appended, where `strict` only if the stack holds
/// what it takes. The depth that it leaves is owed to the place where it will
/// land. After a conditional jump the new end has that depth too; after a
/// plain jump it gets the depth `end`.
pub proof fn lemma_levelled_jump(
    code: Seq<u8>,
    at: Map<int, int>,
    owed: Map<int, int>,
    op: u8,
    end: int,
    strict: bool,
)
    requires
        well_formed(code, owed.dom()),
        levelled(code, at, owed, strict),
        is_jump(op),
        strict ==> at[code.len() as int] >= 0,
        strict && op == JUMP_IF_FALSE ==> at[code.len() as int] >= 1,
        op == JUMP_IF_FALSE ==> end == at[code.len() as int] - 1,
    ensures
        levelled(
            code + seq![op, 0u8],
            at.insert(code.len() as int + 2, end),
            owed.insert(code.len() as int + 1, at[code.len() as int] - pops(seq![op, 0u8], 0)),
            strict,
        ),
{
    let instr = seq![op, 0u8];
    lemma_appended(code, owed.dom(), instr);
    let after = code + instr;
    let more = owed.insert(code.len() as int + 1, at[code.len() as int] - pops(instr, 0));
    if owed.contains_key(code.len() as int + 1) {
        lemma_pending_inside(code, owed.dom(), code.len() as int + 1);
    }
    lemma_levelled_appended(code, at, owed, instr, end, more, strict);
    reveal(levelled);
    reveal(well_formed);
    let notes = at.insert(after.len() as int, end);
    assert(after[code.len() as int] == op);
    assert(pops(after, code.len() as int) == pops(instr, 0));
    assert(pushes(after, code.len() as int) == 0);
    assert forall|p: int| 0 <= p < after.len() && #[trigger] boundary(after, p) implies levels(
        after,
        p,
        notes,
        more,
        strict,
    ) by {
        if p > code.len() {
            assert(!boundary(after, p));
        }
    }
}

/// A jump back may be appended when the depth at its target is the depth
/// where it stands. The new end gets the depth `end`.
pub proof fn lemma_levelled_jump_back(
    code: Seq<u8>,
    at: Map<int, int>,
    owed: Map<int, int>,
    target: int,
    end: int,
    strict: bool,
)
    requires
        well_formed(code, owed.dom()),
        levelled(code, at, owed, strict),
        0 <= target <= code.len(),
        target <= 255,
        at.contains_key(target),
        at[target] == at[code.len() as int],
        strict ==> at[code.len() as int] >= 0,
    ensures
        levelled(
            code + seq![JUMP_ABSOLUTE, target as u8],
            at.insert(code.len() as int + 2, end),
            owed,
            strict,
        ),
{
    let instr = seq![JUMP_ABSOLUTE, target as u8];
    lemma_appended(code, owed.dom(), instr);
    let after = code + instr;
    lemma_levelled_appended(code, at, owed, instr, end, owed, strict);
    reveal(levelled);
    reveal(well_formed);
    let notes = at.insert(after.len() as int, end);
    assert(after[code.len() as int] == JUMP_ABSOLUTE);
    assert(after[code.len() as int + 1] == target as u8);
    assert forall|p: int| 0 <= p < after.len() && #[trigger] boundary(after, p) implies levels(
        after,
        p,
        notes,
        owed,
        strict,
    ) by {
        if p > code.len() {
            assert(!boundary(after, p));
        }
    }
}

/// The distance of a jump may be set when the depth at the end of the code
/// is the depth that was owed to the place where the jump lands.
pub proof fn lemma_levelled_patch(
    code: Seq<u8>,
    at: Map<int, int>,
    rest: Map<int, int>,
    j: int,
    due: int,
    strict: bool,
)
    requires
        well_formed(code, rest.dom().insert(j)),
        levelled(code, at, rest.insert(j, due), strict),
        !rest.contains_key(j),
        code.len() - 1 - j <= 255,
        at[code.len() as int] == due,
    ensures
        levelled(code.update(j, (code.len() - 1 - j) as u8), at, rest, strict),
{
    reveal(levelled);
    reveal(well_formed);
    let owed = rest.insert(j, due);
    let pending = rest.dom().insert(j);
    let value = (code.len() - 1 - j) as u8;
    let after = code.update(j, value);
    let q = j - 1;
    assert(pending.contains(j));
    assert(awaits(code, j));
    assert forall|p: int| p <= code.len() implies boundary(after, p) == boundary(code, p) by {
        lemma_operand_same(code, q, value, p);
    }
    assert forall|p: int| 0 <= p < after.len() && #[trigger] boundary(after, p) implies levels(
        after,
        p,
        at,
        rest,
        strict,
    ) by {
        assert(boundary(code, p));
        assert(levels(code, p, at, owed, strict));
        assert(lands(code, p, pending));
        lemma_whole(code, p);
        if p == q {
            assert(after[p + 1] == value);
            assert(p + 2 + after[p + 1] == code.len());
            assert(owed.contains_key(p + 1));
            assert(owed[p + 1] == due);
            assert(pops(after, p) == pops(code, p));
        } else {
            if p == j {
                lemma_not_inside(code, q, j);
            }
            assert(after[p] == code[p]);
            if operand_count(code[p]) >= 1 {
                assert(after[p + 1] == code[p + 1]);
            }
            if operand_count(code[p]) >= 2 {
                if p + 2 == j {
                    lemma_not_inside(code, p, q);
                }
                assert(after[p + 2] == code[p + 2]);
            }
            assert(next_opcode(after, p) == next_opcode(code, p));
            assert(pops(after, p) == pops(code, p));
            assert(pushes(after, p) == pushes(code, p));
            assert(owed.contains_key(p + 1) == rest.contains_key(p + 1));
            if rest.contains_key(p + 1) {
                assert(owed[p + 1] == rest[p + 1]);
            }
        }
    }
}

} // verus!
