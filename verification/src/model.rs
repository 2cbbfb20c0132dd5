//! The mathematical model of programs: instruction sequences, run-length
//! tokens and the segment tree, as the contracts of the front end speak of them.

use vstd::prelude::*;
use crate::ast::Token;

verus! {

/// An instruction together with the number of times it is to run.
pub struct Op {
    pub token: Token,
    pub count: nat,
}

/// A node of the structured program: a straight-line block or a loop around a body.
pub enum SegmentView {
    Executable(Seq<Op>),
    Loop(Seq<SegmentView>),
}

/// A structured program and whether it reads input.
pub struct FileView {
    pub segments: Seq<SegmentView>,
    pub needs_input: bool,
}

/// The instructions that a source text holds, in order; every other character is dropped.
pub open spec fn instructions(code: Seq<char>) -> Seq<Token>
    decreases code.len(),
{
    if code.len() == 0 {
        Seq::empty()
    } else {
        match Token::spec_from_char(code.last()) {
            Some(token) => instructions(code.drop_last()).push(token),
            None => instructions(code.drop_last()),
        }
    }
}

/// Each instruction as a token of its own, with count one.
pub open spec fn singles(tokens: Seq<Token>) -> Seq<Op> {
    tokens.map_values(|token: Token| Op { token, count: 1 })
}

/// `count` copies of one instruction.
pub open spec fn repeat(token: Token, count: nat) -> Seq<Token> {
    Seq::new(count, |i: int| token)
}

/// The instruction sequence that a token sequence stands for: each token
/// replaced by `count` copies of its instruction.
pub open spec fn expand(ops: Seq<Op>) -> Seq<Token>
    decreases ops.len(),
{
    if ops.len() == 0 {
        Seq::empty()
    } else {
        expand(ops.drop_last()) + repeat(ops.last().token, ops.last().count)
    }
}

/// Whether an instruction may follow `last` inside the same run-length token.
pub open spec fn merges(last: Op, token: Token) -> bool {
    last.token == token && !token.is_bracket()
}

/// The run-length compression of an instruction sequence: each maximal run of
/// one instruction becomes one token; loop markers are never merged.
pub open spec fn run_length(tokens: Seq<Token>) -> Seq<Op>
    decreases tokens.len(),
{
    if tokens.len() == 0 {
        Seq::empty()
    } else {
        let before = run_length(tokens.drop_last());
        let token = tokens.last();
        if before.len() > 0 && merges(before.last(), token) {
            before.drop_last().push(Op { token, count: before.last().count + 1 })
        } else {
            before.push(Op { token, count: 1 })
        }
    }
}

/// Whether some token of the sequence is a read.
pub open spec fn has_read(ops: Seq<Op>) -> bool {
    exists|i: int| 0 <= i < ops.len() && (#[trigger] ops[i]).token == Token::Read
}

/// The position at which the nesting level ends that is `depth` levels above
/// position `from`: that of the first loop end after `from` that closes a loop
/// opened before `from`, or the length of `ops` where there is none.
pub open spec fn level_end(ops: Seq<Op>, from: int, depth: nat) -> int
    decreases ops.len() - from,
{
    if from < 0 || from >= ops.len() {
        ops.len() as int
    } else if ops[from].token == Token::LoopStart {
        level_end(ops, from + 1, depth + 1)
    } else if ops[from].token == Token::LoopEnd {
        if depth == 0 {
            from
        } else {
            level_end(ops, from + 1, (depth - 1) as nat)
        }
    } else {
        level_end(ops, from + 1, depth)
    }
}

/// `op` put in front of the segments of a level: it joins the straight-line
/// block that the level starts with, or becomes a block of its own.
pub open spec fn prepend(op: Op, segments: Seq<SegmentView>) -> Seq<SegmentView> {
    if segments.len() > 0 && segments[0] is Executable {
        seq![SegmentView::Executable(seq![op] + segments[0]->Executable_0)] + segments.drop_first()
    } else {
        seq![SegmentView::Executable(seq![op])] + segments
    }
}

/// The segments of the nesting level that starts at position `from`. The level
/// ends at the first loop end that it does not match, or with the tokens. A
/// loop start opens a loop around the level that follows it, and the level goes
/// on behind the loop end that closes that loop.
pub open spec fn level(ops: Seq<Op>, from: int) -> Seq<SegmentView>
    decreases
        (if from < ops.len() {
            ops.len() - from
        } else {
            0
        }),
{
    if from < 0 || from >= ops.len() || ops[from].token == Token::LoopEnd {
        Seq::empty()
    } else if ops[from].token == Token::LoopStart {
        proof {
            lemma_level_end_bounds(ops, from + 1, 0);
        }
        seq![SegmentView::Loop(level(ops, from + 1))] + level(
            ops,
            level_end(ops, from + 1, 0) + 1,
        )
    } else {
        prepend(ops[from], level(ops, from + 1))
    }
}

/// A level ends at or after the position where it starts, and within the tokens.
pub proof fn lemma_level_end_bounds(ops: Seq<Op>, from: int, depth: nat)
    requires
        0 <= from,
    ensures
        from <= level_end(ops, from, depth) || ops.len() <= from,
        level_end(ops, from, depth) <= ops.len(),
        level_end(ops, from, depth) < ops.len() ==> ops[level_end(ops, from, depth)].token
            == Token::LoopEnd,
    decreases ops.len() - from,
{
    if from < ops.len() {
        if ops[from].token == Token::LoopStart {
            lemma_level_end_bounds(ops, from + 1, depth + 1);
        } else if ops[from].token == Token::LoopEnd {
            if depth > 0 {
                lemma_level_end_bounds(ops, from + 1, (depth - 1) as nat);
            }
        } else {
            lemma_level_end_bounds(ops, from + 1, depth);
        }
    }
}

/// A straight-line run put in front of the segments of a level: nothing where
/// the run is empty, else one block, joined with the block that the level
/// starts with.
pub open spec fn with_run(run: Seq<Op>, segments: Seq<SegmentView>) -> Seq<SegmentView> {
    if run.len() == 0 {
        segments
    } else if segments.len() > 0 && segments[0] is Executable {
        seq![SegmentView::Executable(run + segments[0]->Executable_0)] + segments.drop_first()
    } else {
        seq![SegmentView::Executable(run)] + segments
    }
}

/// The tokens of a sequence that are no loop markers, in order.
pub open spec fn non_brackets(ops: Seq<Op>) -> Seq<Op>
    decreases ops.len(),
{
    if ops.len() == 0 {
        Seq::empty()
    } else if ops.last().token.is_bracket() {
        non_brackets(ops.drop_last())
    } else {
        non_brackets(ops.drop_last()).push(ops.last())
    }
}

/// The tokens of the straight-line blocks of a segment tree, as a walk in
/// pre-order meets them: a loop gives the tokens of its whole body.
pub open spec fn leaves(segments: Seq<SegmentView>) -> Seq<Op>
    decreases segments,
{
    if segments.len() == 0 {
        Seq::empty()
    } else {
        match segments.last() {
            SegmentView::Executable(run) => leaves(segments.drop_last()) + run,
            SegmentView::Loop(body) => leaves(segments.drop_last()) + leaves(body),
        }
    }
}

/// The instruction of each token.
pub open spec fn tokens_of(ops: Seq<Op>) -> Seq<Token> {
    ops.map_values(|op: Op| op.token)
}

/// The instructions of a segment tree with the loop markers put back around
/// each loop's body, counts left aside.
pub open spec fn skeleton(segments: Seq<SegmentView>) -> Seq<Token>
    decreases segments,
{
    if segments.len() == 0 {
        Seq::empty()
    } else {
        match segments.last() {
            SegmentView::Executable(run) => skeleton(segments.drop_last()) + tokens_of(run),
            SegmentView::Loop(body) => skeleton(segments.drop_last()) + seq![Token::LoopStart]
                + skeleton(body) + seq![Token::LoopEnd],
        }
    }
}

/// Whether a block is not empty and holds no loop marker.
pub open spec fn proper_block(run: Seq<Op>) -> bool {
    run.len() > 0 && forall|j: int| 0 <= j < run.len() ==> !(#[trigger] run[j]).token.is_bracket()
}

/// Whether a segment tree is in the form that structuring gives: every
/// straight-line block is not empty and holds no loop marker, and no block
/// follows another, at every depth.
pub open spec fn normal(segments: Seq<SegmentView>) -> bool
    decreases segments,
{
    forall|i: int|
        0 <= i < segments.len() ==> match #[trigger] segments[i] {
            SegmentView::Executable(run) => proper_block(run) && (i + 1 < segments.len()
                ==> segments[i + 1] is Loop),
            SegmentView::Loop(body) => normal(body),
        }
}

/// The number of loops that are open behind the first `n` tokens: loop starts
/// less loop ends.
pub open spec fn depth_after(ops: Seq<Op>, n: int) -> int
    decreases n,
{
    if n <= 0 || n > ops.len() {
        0
    } else if ops[n - 1].token == Token::LoopStart {
        depth_after(ops, n - 1) + 1
    } else if ops[n - 1].token == Token::LoopEnd {
        depth_after(ops, n - 1) - 1
    } else {
        depth_after(ops, n - 1)
    }
}

/// Whether every loop end closes a loop that is open.
pub open spec fn no_unmatched_end(ops: Seq<Op>) -> bool {
    forall|n: int| 0 <= n <= ops.len() ==> #[trigger] depth_after(ops, n) >= 0
}

/// Whether the loop markers of a token sequence match: every loop end closes
/// an open loop, and no loop is left open.
pub open spec fn balanced(ops: Seq<Op>) -> bool {
    no_unmatched_end(ops) && depth_after(ops, ops.len() as int) == 0
}

/// The structured form of a token sequence.
pub open spec fn structured(ops: Seq<Op>) -> Seq<SegmentView> {
    level(ops, 0)
}

} // verus!
