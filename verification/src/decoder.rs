//! From source text to an instruction sequence: bracket matching and the decoding
//! of each character.

use vstd::prelude::*;
use crate::instruction::{brackets_paired, targets_in_range, Fault, Instruction};

verus! {

/// What a character contributes to the nesting depth: an opening bracket adds
/// one, a closing bracket takes one away, anything else leaves it alone.
pub open spec fn weight(c: char) -> int {
    if c == '[' {
        1
    } else if c == ']' {
        -1
    } else {
        0
    }
}

/// The number of opening brackets less the number of closing brackets among the
/// characters of `src` at positions `from <= i < to`.
pub open spec fn depth(src: Seq<char>, from: int, to: int) -> int
    decreases to - from,
{
    if from >= to {
        0
    } else {
        depth(src, from, to - 1) + weight(src[to - 1])
    }
}

/// Position `p` lies to the right of `pos`, holds a closing bracket, and the
/// brackets strictly between the two are balanced.
pub open spec fn closes_at(src: Seq<char>, pos: int, p: int) -> bool {
    &&& 0 <= pos < p < src.len()
    &&& src[p] == ']'
    &&& depth(src, pos + 1, p) == 0
}

/// `p` is the nearest position to the right of `pos` that closes it.
pub open spec fn is_right_match(src: Seq<char>, pos: int, p: int) -> bool {
    &&& closes_at(src, pos, p)
    &&& forall|q: int| pos < q < p ==> !closes_at(src, pos, q)
}

/// The partner to the right of position `pos`, if there is one.
pub open spec fn right_match(src: Seq<char>, pos: int) -> Option<int> {
    if exists|p: int| is_right_match(src, pos, p) {
        Some(choose|p: int| is_right_match(src, pos, p))
    } else {
        None
    }
}

/// Position `q` lies to the left of `pos`, holds an opening bracket, and the
/// brackets strictly between the two are balanced.
pub open spec fn opens_at(src: Seq<char>, pos: int, q: int) -> bool {
    &&& 0 <= q < pos <= src.len()
    &&& src[q] == '['
    &&& depth(src, q + 1, pos) == 0
}

/// `q` is the nearest position to the left of `pos` that opens it.
pub open spec fn is_left_match(src: Seq<char>, pos: int, q: int) -> bool {
    &&& opens_at(src, pos, q)
    &&& forall|p: int| q < p < pos ==> !opens_at(src, pos, p)
}

/// The partner to the left of position `pos`, if there is one.
pub open spec fn left_match(src: Seq<char>, pos: int) -> Option<int> {
    if exists|q: int| is_left_match(src, pos, q) {
        Some(choose|q: int| is_left_match(src, pos, q))
    } else {
        None
    }
}

/// The depth of a range is the weight of its first character plus the depth of
/// the rest.
pub proof fn lemma_depth_front(src: Seq<char>, from: int, to: int)
    requires
        from < to,
    ensures
        depth(src, from, to) == weight(src[from]) + depth(src, from + 1, to),
    decreases to - from,
{
    if from + 1 < to {
        lemma_depth_front(src, from, to - 1);
        assert(depth(src, from + 1, to) == depth(src, from + 1, to - 1) + weight(src[to - 1]));
    } else {
        assert(depth(src, from, to - 1) == 0);
        assert(depth(src, from + 1, to) == 0);
    }
}

/// The depth of a range is the sum of the depths of its two parts.
pub proof fn lemma_depth_split(src: Seq<char>, from: int, mid: int, to: int)
    requires
        from <= mid <= to,
    ensures
        depth(src, from, to) == depth(src, from, mid) + depth(src, mid, to),
    decreases to - mid,
{
    if mid < to {
        lemma_depth_split(src, from, mid, to - 1);
    }
}

/// On the way from a position to its right partner the depth never drops below
/// zero.
proof fn lemma_depth_before_right_match(src: Seq<char>, pos: int, p: int, q: int)
    requires
        is_right_match(src, pos, p),
        pos < q <= p,
    ensures
        depth(src, pos + 1, q) >= 0,
    decreases q,
{
    if q > pos + 1 {
        lemma_depth_before_right_match(src, pos, p, q - 1);
        if depth(src, pos + 1, q - 1) == 0 && src[q - 1] == ']' {
            assert(closes_at(src, pos, q - 1));
        }
    }
}

/// On the way back from a position to its left partner the depth never rises
/// above zero.
proof fn lemma_depth_after_left_match(src: Seq<char>, pos: int, q: int, r: int)
    requires
        is_left_match(src, pos, q),
        q < r <= pos,
    ensures
        depth(src, r, pos) <= 0,
    decreases pos - r,
{
    if r < pos {
        lemma_depth_after_left_match(src, pos, q, r + 1);
        lemma_depth_front(src, r, pos);
        if depth(src, r + 1, pos) == 0 && src[r] == '[' {
            assert(opens_at(src, pos, r));
        }
    }
}

/// The right partner of an opening bracket is a closing bracket whose left
/// partner is that opening bracket.
pub proof fn lemma_right_match_is_mutual(src: Seq<char>, pos: int, p: int)
    requires
        0 <= pos < src.len(),
        src[pos] == '[',
        right_match(src, pos) == Some(p),
    ensures
        pos < p < src.len(),
        src[p] == ']',
        left_match(src, p) == Some(pos),
{
    assert(is_right_match(src, pos, p));
    assert forall|r: int| pos < r < p implies !opens_at(src, p, r) by {
        if opens_at(src, p, r) {
            lemma_depth_split(src, pos + 1, r + 1, p);
            lemma_depth_before_right_match(src, pos, p, r);
            assert(depth(src, pos + 1, r + 1) == depth(src, pos + 1, r) + weight(src[r]));
        }
    }
    assert(is_left_match(src, p, pos));
    assert forall|x: int| is_left_match(src, p, x) implies x == pos by {}
}

/// The left partner of a closing bracket is an opening bracket whose right
/// partner is that closing bracket.
pub proof fn lemma_left_match_is_mutual(src: Seq<char>, pos: int, q: int)
    requires
        0 <= pos < src.len(),
        src[pos] == ']',
        left_match(src, pos) == Some(q),
    ensures
        0 <= q < pos,
        src[q] == '[',
        right_match(src, q) == Some(pos),
{
    assert(is_left_match(src, pos, q));
    assert forall|r: int| q < r < pos implies !closes_at(src, q, r) by {
        if closes_at(src, q, r) {
            lemma_depth_split(src, q + 1, r, pos);
            lemma_depth_after_left_match(src, pos, q, r + 1);
            lemma_depth_front(src, r, pos);
        }
    }
    assert(is_right_match(src, q, pos));
    assert forall|x: int| is_right_match(src, q, x) implies x == pos by {}
}

/// Scans to the right of `pos` for the closing bracket that pairs with it: the
/// nearest closing bracket behind `pos` with balanced brackets in between.  The
/// character under `pos` itself is not looked at.  There is no partner when the
/// scan reaches the end of the text, or when `pos` lies outside the text.
pub fn search_right_bracket(pos: usize, vec: &Vec<char>) -> (r: Option<usize>)
    ensures
        right_match(vec@, pos as int) == match r {
            Some(p) => Some(p as int),
            None => None,
        },
{
    if pos >= vec.len() {
        return None;
    }
    let ghost src = vec@;
    let mut bracket_cnt: usize = 0;
    let mut p: usize = pos + 1;
    while p < vec.len()
        invariant
            src == vec@,
            pos < p <= vec.len(),
            bracket_cnt == depth(src, pos + 1, p as int),
            bracket_cnt <= p - pos - 1,
            forall|q: int| pos < q < p ==> !closes_at(src, pos as int, q),
        decreases vec.len() - p,
    {
        if bracket_cnt == 0 && vec[p] == ']' {
            assert(is_right_match(src, pos as int, p as int));
            assert forall|x: int| is_right_match(src, pos as int, x) implies x == p by {}
            return Some(p);
        } else if vec[p] == '[' {
            bracket_cnt += 1;
        } else if vec[p] == ']' {
            bracket_cnt -= 1;
        }
        p += 1;
    }
    assert forall|x: int| !is_right_match(src, pos as int, x) by {}
    None
}

/// Scans to the left of `pos` for the opening bracket that pairs with it: the
/// nearest opening bracket before `pos` with balanced brackets in between, the
/// first character of the text included.  The character under `pos` itself is
/// not looked at.  There is no partner when the scan reaches the start of the
/// text, or when `pos` lies beyond the end of the text.
pub fn search_left_bracket(pos: usize, vec: &[char]) -> (r: Option<usize>)
    ensures
        left_match(vec@, pos as int) == match r {
            Some(q) => Some(q as int),
            None => None,
        },
{
    if pos > vec.len() {
        return None;
    }
    let ghost src = vec@;
    let mut bracket_cnt: usize = 0;
    let mut p: usize = pos;
    while p > 0
        invariant
            src == vec@,
            p <= pos <= vec.len(),
            bracket_cnt == -depth(src, p as int, pos as int),
            bracket_cnt <= pos - p,
            forall|q: int| p <= q < pos ==> !opens_at(src, pos as int, q),
        decreases p,
    {
        p -= 1;
        proof {
            lemma_depth_front(src, p as int, pos as int);
        }
        if bracket_cnt == 0 && vec[p] == '[' {
            assert(is_left_match(src, pos as int, p as int));
            assert forall|x: int| is_left_match(src, pos as int, x) implies x == p by {}
            return Some(p);
        } else if vec[p] == ']' {
            bracket_cnt += 1;
        } else if vec[p] == '[' {
            bracket_cnt -= 1;
        }
    }
    assert forall|x: int| !is_left_match(src, pos as int, x) by {}
    None
}

/// The instruction that the character at position `pc` of `src` stands for.  A
/// bracket turns into a jump to its partner; a bracket without a partner, or a
/// character that is no opcode, is a malformed program at that position.
pub open spec fn decode_at(src: Seq<char>, pc: int) -> Result<Instruction, Fault> {
    let malformed = Err(Fault::MalformedProgram { position: pc as usize });
    let c = src[pc];
    if c == '+' {
        Ok(Instruction::Inc)
    } else if c == '-' {
        Ok(Instruction::Dec)
    } else if c == '<' {
        Ok(Instruction::Left)
    } else if c == '>' {
        Ok(Instruction::Right)
    } else if c == ',' {
        Ok(Instruction::Input)
    } else if c == '.' {
        Ok(Instruction::Output)
    } else if c == '[' {
        match right_match(src, pc) {
            Some(target) => Ok(Instruction::JmpForward(target as usize)),
            None => malformed,
        }
    } else if c == ']' {
        match left_match(src, pc) {
            Some(target) => Ok(Instruction::JmpBack(target as usize)),
            None => malformed,
        }
    } else {
        malformed
    }
}

/// Position `i` is the first one of `src` that does not decode.
pub open spec fn is_first_malformed(src: Seq<char>, i: int) -> bool {
    &&& 0 <= i < src.len()
    &&& decode_at(src, i) is Err
    &&& forall|j: int| 0 <= j < i ==> decode_at(src, j) is Ok
}

/// The instruction sequence of `src`: one instruction per character, in order.
/// Where some character does not decode, the whole program is malformed at the
/// first such position.
pub open spec fn decoded(src: Seq<char>) -> Result<Seq<Instruction>, Fault> {
    if exists|i: int| is_first_malformed(src, i) {
        Err(
            Fault::MalformedProgram {
                position: (choose|i: int| is_first_malformed(src, i)) as usize,
            },
        )
    } else {
        Ok(Seq::new(src.len(), |i: int| decode_at(src, i).unwrap()))
    }
}

impl Instruction {
    /// Decodes the character at position `pc` of `program`.  The six plain
    /// opcodes stand for themselves; a bracket becomes a jump that carries the
    /// position of its partner.
    pub fn from(pc: usize, program: &Vec<char>) -> (r: Result<Instruction, Fault>)
        requires
            pc < program.len(),
        ensures
            r == decode_at(program@, pc as int),
    {
        let c = program[pc];
        if c == '+' {
            Ok(Instruction::Inc)
        } else if c == '-' {
            Ok(Instruction::Dec)
        } else if c == '<' {
            Ok(Instruction::Left)
        } else if c == '>' {
            Ok(Instruction::Right)
        } else if c == ',' {
            Ok(Instruction::Input)
        } else if c == '.' {
            Ok(Instruction::Output)
        } else if c == '[' {
            match search_right_bracket(pc, program) {
                Some(target) => Ok(Instruction::JmpForward(target)),
                None => Err(Fault::MalformedProgram { position: pc }),
            }
        } else if c == ']' {
            match search_left_bracket(pc, program.as_slice()) {
                Some(target) => Ok(Instruction::JmpBack(target)),
                None => Err(Fault::MalformedProgram { position: pc }),
            }
        } else {
            Err(Fault::MalformedProgram { position: pc })
        }
    }
}

/// The characters of `text`, in order.
fn chars_of(text: &str) -> (v: Vec<char>)
    ensures
        v@ == text@,
{
    broadcast use vstd::string::axiom_spec_iter;

    let mut v: Vec<char> = Vec::new();
    for c in it: text.chars()
        invariant
            it.seq() == text@,
            v@ == it.seq().take(it.index()),
    {
        v.push(c);
    }
    v
}

/// Decodes a whole program.  The result has one instruction per character of
/// the source, at the same index, and its brackets are paired.  A character
/// that is no opcode, or a bracket without a partner, makes the whole program
/// malformed; the fault names the first such position, counted in characters.
pub fn decode(program_str: &str) -> (r: Result<Vec<Instruction>, Fault>)
    ensures
        decoded(program_str@) == match r {
            Ok(insts) => Ok(insts@),
            Err(fault) => Err(fault),
        },
        r matches Ok(insts) ==> brackets_paired(insts@) && targets_in_range(insts@),
{
    let program = chars_of(program_str);
    let ghost src = program@;
    let mut instructions: Vec<Instruction> = Vec::new();
    let mut idx: usize = 0;
    while idx < program.len()
        invariant
            src == program@,
            src == program_str@,
            idx <= program.len(),
            instructions@.len() == idx,
            forall|j: int|
                0 <= j < idx ==> #[trigger] decode_at(src, j) == Ok::<Instruction, Fault>(
                    instructions@[j],
                ),
        decreases program.len() - idx,
    {
        match Instruction::from(idx, &program) {
            Ok(instruction) => {
                instructions.push(instruction);
            },
            Err(fault) => {
                assert(is_first_malformed(src, idx as int));
                assert forall|x: int| is_first_malformed(src, x) implies x == idx by {}
                return Err(fault);
            },
        }
        idx += 1;
    }
    proof {
        assert forall|x: int| !is_first_malformed(src, x) by {}
        assert(instructions@ =~= Seq::new(src.len(), |i: int| decode_at(src, i).unwrap()));
        lemma_decoded_brackets_paired(src);
    }
    Ok(instructions)
}

/// A decoded program has one instruction per character of its source, and its
/// brackets are paired: every jump targets its partner, and the partner's jump
/// targets it in turn.
pub proof fn lemma_decoded_brackets_paired(src: Seq<char>)
    requires
        src.len() <= usize::MAX,
    ensures
        decoded(src) matches Ok(insts) ==> insts.len() == src.len() && brackets_paired(insts)
            && targets_in_range(insts),
{
    if let Ok(insts) = decoded(src) {
        assert forall|i: int| 0 <= i < src.len() implies decode_at(src, i) is Ok by {
            if !(decode_at(src, i) is Ok) {
                lemma_first_malformed_exists(src, i);
            }
        }
        assert forall|i: int| 0 <= i < insts.len() implies match #[trigger] insts[i] {
            Instruction::JmpForward(t) => i < t < insts.len() && insts[t as int]
                == Instruction::JmpBack(i as usize),
            Instruction::JmpBack(t) => t < i && insts[t as int] == Instruction::JmpForward(
                i as usize,
            ),
            _ => true,
        } by {
            assert(insts[i] == decode_at(src, i).unwrap());
            if src[i] == '[' {
                let t = right_match(src, i)->0;
                lemma_right_match_is_mutual(src, i, t);
                assert(insts[t] == decode_at(src, t).unwrap());
            } else if src[i] == ']' {
                let t = left_match(src, i)->0;
                lemma_left_match_is_mutual(src, i, t);
                assert(insts[t] == decode_at(src, t).unwrap());
            }
        }
        crate::instruction::lemma_paired_targets_in_range(insts);
    }
}

/// If some position fails to decode, there is a first one that does.
pub proof fn lemma_first_malformed_exists(src: Seq<char>, i: int)
    requires
        0 <= i < src.len(),
        decode_at(src, i) is Err,
    ensures
        exists|k: int| is_first_malformed(src, k),
    decreases i,
{
    if forall|j: int| 0 <= j < i ==> decode_at(src, j) is Ok {
        assert(is_first_malformed(src, i));
    } else {
        let j = choose|j: int| 0 <= j < i && !(decode_at(src, j) is Ok);
        lemma_first_malformed_exists(src, j);
    }
}

} // verus!
