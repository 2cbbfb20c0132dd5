//! What holds of tokenizing, structuring and generating for every program.

use vstd::prelude::*;
use crate::ast::{File, Token, TokenExt, program};
use crate::generator::{
    BrainfuckToRust, GenerateError, generated, has_marker, has_repeated_read, lemma_faults_add,
};
use crate::model::{
    Op, SegmentView, balanced, depth_after, expand, has_read, instructions, leaves,
    lemma_level_end_bounds, level, level_end, merges, non_brackets, normal, prepend,
    proper_block, repeat, run_length, singles, skeleton, structured, tokens_of, with_run,
};

verus! {

/// Expanding distributes over putting one more token at the end.
pub proof fn lemma_expand_push(ops: Seq<Op>, op: Op)
    ensures
        expand(ops.push(op)) == expand(ops) + repeat(op.token, op.count),
{
    assert(ops.push(op).drop_last() == ops);
}

/// Tokens of count one expand to their instructions.
pub proof fn lemma_expand_singles(tokens: Seq<Token>)
    ensures
        expand(singles(tokens)) == tokens,
        forall|i: int| 0 <= i < singles(tokens).len() ==> (#[trigger] singles(tokens)[i]).count >= 1,
    decreases tokens.len(),
{
    if tokens.len() > 0 {
        lemma_expand_singles(tokens.drop_last());
        assert(singles(tokens).drop_last() == singles(tokens.drop_last()));
        assert(repeat(tokens.last(), 1) == seq![tokens.last()]);
        assert(tokens == tokens.drop_last() + seq![tokens.last()]);
    }
}

/// Round trip of the compression: expanding the run-length form of an
/// instruction sequence gives the sequence back.
pub proof fn lemma_expand_run_length(tokens: Seq<Token>)
    ensures
        expand(run_length(tokens)) == tokens,
    decreases tokens.len(),
{
    if tokens.len() > 0 {
        let before = run_length(tokens.drop_last());
        let token = tokens.last();
        lemma_expand_run_length(tokens.drop_last());
        assert(tokens == tokens.drop_last() + seq![token]);
        if before.len() > 0 && merges(before.last(), token) {
            let last = before.last();
            let merged = Op { token, count: last.count + 1 };
            lemma_expand_push(before.drop_last(), merged);
            lemma_expand_push(before.drop_last(), last);
            assert(before.drop_last().push(last) == before);
            assert(repeat(token, last.count + 1) == repeat(token, last.count) + seq![token]);
        } else {
            lemma_expand_push(before, Op { token, count: 1 });
            assert(repeat(token, 1) == seq![token]);
        }
    }
}

/// The run-length form is canonical: every count is at least one, a loop
/// marker has count one, and no token could have been merged into the one
/// before it.
pub proof fn lemma_run_length_counts(tokens: Seq<Token>)
    ensures
        forall|i: int|
            0 <= i < run_length(tokens).len() ==> (#[trigger] run_length(tokens)[i]).count >= 1,
        forall|i: int|
            0 <= i < run_length(tokens).len() && (#[trigger] run_length(tokens)[i]).token.is_bracket()
                ==> run_length(tokens)[i].count == 1,
        forall|i: int|
            0 < i < run_length(tokens).len() ==> !merges(
                run_length(tokens)[i - 1],
                (#[trigger] run_length(tokens)[i]).token,
            ),
        tokens.len() > 0 ==> run_length(tokens).len() > 0 && run_length(tokens).last().token
            == tokens.last(),
    decreases tokens.len(),
{
    if tokens.len() > 0 {
        lemma_run_length_counts(tokens.drop_last());
    }
}

/// A run with one more token at its end, put in front of a level, is the run
/// put in front of the level that starts with that token.
pub proof fn lemma_with_run_push(run: Seq<Op>, op: Op, segments: Seq<SegmentView>)
    ensures
        with_run(run.push(op), segments) == with_run(run, prepend(op, segments)),
{
    let joined = prepend(op, segments);
    if segments.len() > 0 && segments[0] is Executable {
        let first = segments[0]->Executable_0;
        assert(joined.drop_first() =~= segments.drop_first());
        assert(run.push(op) + first =~= run + (seq![op] + first));
    } else {
        assert(joined.drop_first() =~= segments);
        assert(run.push(op) =~= run + seq![op]);
    }
    if run.len() == 0 {
        assert(run.push(op) =~= seq![op]);
        assert(seq![op] + Seq::<Op>::empty() =~= seq![op]);
    }
}

/// The level that is `depth + 1` levels up ends where the level `depth` levels
/// up ends, counted from behind the end of the innermost level.
pub proof fn lemma_level_end_nested(ops: Seq<Op>, from: int, depth: nat)
    requires
        0 <= from,
    ensures
        level_end(ops, from, depth + 1) == (if level_end(ops, from, 0) >= ops.len() {
            ops.len() as int
        } else {
            level_end(ops, level_end(ops, from, 0) + 1, depth)
        }),
    decreases ops.len() - from,
{
    if from < ops.len() {
        if ops[from].token == Token::LoopStart {
            let inner = level_end(ops, from + 1, 0);
            lemma_level_end_bounds(ops, from + 1, 0);
            lemma_level_end_nested(ops, from + 1, depth + 1);
            lemma_level_end_nested(ops, from + 1, 0);
            if inner < ops.len() {
                lemma_level_end_nested(ops, inner + 1, depth);
            }
        } else if ops[from].token == Token::LoopEnd {
        } else {
            lemma_level_end_nested(ops, from + 1, depth);
        }
    }
}

/// A level of the tokens from position `start` on is the level at the same
/// place of the whole sequence, and ends at the same place.
pub proof fn lemma_level_of_suffix(ops: Seq<Op>, start: int, from: int, depth: nat)
    requires
        0 <= start <= ops.len(),
        0 <= from,
    ensures
        level_end(ops.subrange(start, ops.len() as int), from, depth) + start == level_end(
            ops,
            start + from,
            depth,
        ),
        depth == 0 ==> level(ops.subrange(start, ops.len() as int), from) == level(
            ops,
            start + from,
        ),
    decreases ops.len() - start - from,
{
    let suffix = ops.subrange(start, ops.len() as int);
    if from < suffix.len() {
        assert(suffix[from] == ops[start + from]);
        if ops[start + from].token == Token::LoopStart {
            lemma_level_of_suffix(ops, start, from + 1, depth + 1);
            lemma_level_of_suffix(ops, start, from + 1, 0);
            if depth == 0 {
                let inner = level_end(suffix, from + 1, 0);
                lemma_level_end_bounds(suffix, from + 1, 0);
                if inner + 1 <= suffix.len() {
                    lemma_level_of_suffix(ops, start, inner + 1, 0);
                } else {
                }
            }
        } else if ops[start + from].token == Token::LoopEnd {
            if depth > 0 {
                lemma_level_of_suffix(ops, start, from + 1, (depth - 1) as nat);
            }
        } else {
            lemma_level_of_suffix(ops, start, from + 1, depth);
            if depth == 0 {
                lemma_level_of_suffix(ops, start, from + 1, 0);
            }
        }
    }
}

/// One token is kept unless it is a loop marker.
pub proof fn lemma_non_brackets_single(op: Op)
    ensures
        non_brackets(seq![op]) == (if op.token.is_bracket() {
            Seq::<Op>::empty()
        } else {
            seq![op]
        }),
{
    let one = seq![op];
    assert(one.drop_last() =~= Seq::<Op>::empty());
    assert(non_brackets(one.drop_last()) =~= Seq::<Op>::empty());
    assert(one.last() == op);
    if !op.token.is_bracket() {
        assert(non_brackets(one) =~= seq![op]);
    }
}

/// The tokens that are no loop markers, of two sequences in a row.
pub proof fn lemma_non_brackets_add(a: Seq<Op>, b: Seq<Op>)
    ensures
        non_brackets(a + b) == non_brackets(a) + non_brackets(b),
    decreases b.len(),
{
    if b.len() == 0 {
        assert(a + b =~= a);
        assert(non_brackets(a) + non_brackets(b) =~= non_brackets(a));
    } else {
        lemma_non_brackets_add(a, b.drop_last());
        assert((a + b).drop_last() =~= a + b.drop_last());
        assert(non_brackets(a + b) =~= non_brackets(a) + non_brackets(b));
    }
}

/// The leaves of two segment sequences in a row.
pub proof fn lemma_leaves_add(a: Seq<SegmentView>, b: Seq<SegmentView>)
    ensures
        leaves(a + b) == leaves(a) + leaves(b),
    decreases b.len(),
{
    if b.len() == 0 {
        assert(a + b =~= a);
        assert(leaves(a) + leaves(b) =~= leaves(a));
    } else {
        lemma_leaves_add(a, b.drop_last());
        assert((a + b).drop_last() =~= a + b.drop_last());
        assert((a + b).last() == b.last());
        assert(leaves(a + b) =~= leaves(a) + leaves(b));
    }
}

/// The leaves of one segment.
pub proof fn lemma_leaves_single(segment: SegmentView)
    ensures
        leaves(seq![segment]) == (match segment {
            SegmentView::Executable(run) => run,
            SegmentView::Loop(body) => leaves(body),
        }),
{
    let one = seq![segment];
    assert(one.drop_last() =~= Seq::<SegmentView>::empty());
    assert(one.last() == segment);
    assert(leaves(one.drop_last()) =~= Seq::<Op>::empty());
    match segment {
        SegmentView::Executable(run) => {
            assert(leaves(one) =~= run);
        },
        SegmentView::Loop(body) => {
            assert(leaves(one) =~= leaves(body));
        },
    }
}

/// A token put in front of a level comes first among its leaves.
pub proof fn lemma_leaves_prepend(op: Op, segments: Seq<SegmentView>)
    ensures
        leaves(prepend(op, segments)) == seq![op] + leaves(segments),
{
    if segments.len() > 0 && segments[0] is Executable {
        let first = segments[0]->Executable_0;
        let joined = SegmentView::Executable(seq![op] + first);
        lemma_leaves_add(seq![joined], segments.drop_first());
        lemma_leaves_single(joined);
        lemma_leaves_single(segments[0]);
        lemma_leaves_add(seq![segments[0]], segments.drop_first());
        assert(seq![segments[0]] + segments.drop_first() =~= segments);
        assert(leaves(prepend(op, segments)) =~= seq![op] + leaves(segments));
    } else {
        let single = SegmentView::Executable(seq![op]);
        lemma_leaves_add(seq![single], segments);
        lemma_leaves_single(single);
    }
}

/// What structuring keeps of a level: its leaves are the tokens from where
/// the level starts to where it ends, less the loop markers, in their order.
pub proof fn lemma_leaves_of_level(ops: Seq<Op>, from: int)
    requires
        0 <= from <= ops.len(),
    ensures
        leaves(level(ops, from)) == non_brackets(ops.subrange(from, level_end(ops, from, 0))),
    decreases ops.len() - from,
{
    lemma_level_end_bounds(ops, from, 0);
    let end = level_end(ops, from, 0);
    if from >= ops.len() || ops[from].token == Token::LoopEnd {
        assert(ops.subrange(from, end) =~= Seq::<Op>::empty());
    } else if ops[from].token == Token::LoopStart {
        let close = level_end(ops, from + 1, 0);
        let body = level(ops, from + 1);
        let behind = level(ops, close + 1);
        lemma_level_end_bounds(ops, from + 1, 0);
        lemma_level_end_nested(ops, from + 1, 0);
        lemma_leaves_of_level(ops, from + 1);
        lemma_leaves_add(seq![SegmentView::Loop(body)], behind);
        lemma_leaves_single(SegmentView::Loop(body));
        let open = ops.subrange(from, from + 1);
        let inside = ops.subrange(from + 1, close);
        assert(open =~= seq![ops[from]]);
        lemma_non_brackets_single(ops[from]);
        if close < ops.len() {
            lemma_level_end_bounds(ops, close + 1, 0);
            lemma_leaves_of_level(ops, close + 1);
            let shut = ops.subrange(close, close + 1);
            let after = ops.subrange(close + 1, end);
            assert(shut =~= seq![ops[close]]);
            lemma_non_brackets_single(ops[close]);
            assert(ops.subrange(from, end) =~= ((open + inside) + shut) + after);
            lemma_non_brackets_add(open, inside);
            lemma_non_brackets_add(open + inside, shut);
            lemma_non_brackets_add((open + inside) + shut, after);
            assert(leaves(level(ops, from)) =~= non_brackets(ops.subrange(from, end)));
        } else {
            assert(behind =~= Seq::<SegmentView>::empty());
            assert(ops.subrange(from, end) =~= open + inside);
            lemma_non_brackets_add(open, inside);
            assert(leaves(level(ops, from)) =~= non_brackets(ops.subrange(from, end)));
        }
    } else {
        lemma_leaves_of_level(ops, from + 1);
        lemma_leaves_prepend(ops[from], level(ops, from + 1));
        let first = ops.subrange(from, from + 1);
        let rest = ops.subrange(from + 1, end);
        assert(first =~= seq![ops[from]]);
        lemma_non_brackets_single(ops[from]);
        assert(ops.subrange(from, end) =~= first + rest);
        lemma_non_brackets_add(first, rest);
    }
}

/// Where no loop end is unmatched from `from` on, the level that is `depth`
/// levels up ends with the tokens.
pub proof fn lemma_level_end_without_unmatched(ops: Seq<Op>, from: int, depth: nat)
    requires
        0 <= from <= ops.len(),
        forall|n: int|
            from <= n <= ops.len() ==> #[trigger] depth_after(ops, n) - depth_after(ops, from)
                + depth >= 0,
    ensures
        level_end(ops, from, depth) == ops.len(),
    decreases ops.len() - from,
{
    if from < ops.len() {
        assert(depth_after(ops, from + 1) - depth_after(ops, from) + depth >= 0);
        if ops[from].token == Token::LoopStart {
            lemma_level_end_without_unmatched(ops, from + 1, depth + 1);
        } else if ops[from].token == Token::LoopEnd {
            lemma_level_end_without_unmatched(ops, from + 1, (depth - 1) as nat);
        } else {
            lemma_level_end_without_unmatched(ops, from + 1, depth);
        }
    }
}

/// Structuring preserves order: where the loop markers match, the tokens of
/// the straight-line blocks, in a pre-order walk of the tree with each loop
/// replaced by the walk of its body, are the tokens of the flat sequence that
/// are no loop markers, in their order.
pub proof fn lemma_structuring_preserves_order(ops: Seq<Op>)
    requires
        balanced(ops),
    ensures
        leaves(structured(ops)) == non_brackets(ops),
{
    assert(depth_after(ops, 0) == 0);
    lemma_level_end_without_unmatched(ops, 0, 0);
    lemma_leaves_of_level(ops, 0);
    assert(ops.subrange(0, ops.len() as int) =~= ops);
}

/// An instruction occurs among the instructions of a text just when its
/// character occurs in the text.
pub proof fn lemma_instructions_contains(code: Seq<char>, token: Token)
    ensures
        instructions(code).contains(token) <==> code.contains(token.spec_as_char()),
    decreases code.len(),
{
    let found = instructions(code);
    if code.len() > 0 {
        let before = instructions(code.drop_last());
        lemma_instructions_contains(code.drop_last(), token);
        if found.contains(token) {
            let i = choose|i: int| 0 <= i < found.len() && found[i] == token;
            if i < before.len() {
                assert(before[i] == token);
                let j = choose|j: int|
                    0 <= j < code.drop_last().len() && code.drop_last()[j] == token.spec_as_char();
                assert(code[j] == token.spec_as_char());
            } else {
                assert(code[code.len() - 1] == token.spec_as_char());
            }
        }
        if code.contains(token.spec_as_char()) {
            let j = choose|j: int| 0 <= j < code.len() && code[j] == token.spec_as_char();
            if j < code.len() - 1 {
                assert(code.drop_last()[j] == token.spec_as_char());
                let i = choose|i: int| 0 <= i < before.len() && before[i] == token;
                assert(found[i] == token);
            } else {
                assert(Token::spec_from_char(code.last()) == Some(token));
                assert(found[found.len() - 1] == token);
            }
        }
    }
}

/// Where every token stands for at least one instruction, the tokens hold a
/// read just when the instructions that they stand for do.
pub proof fn lemma_has_read_expand(ops: Seq<Op>)
    requires
        forall|i: int| 0 <= i < ops.len() ==> (#[trigger] ops[i]).count >= 1,
    ensures
        has_read(ops) <==> expand(ops).contains(Token::Read),
    decreases ops.len(),
{
    let all = expand(ops);
    if ops.len() > 0 {
        let before = expand(ops.drop_last());
        let last = ops.last();
        let run = repeat(last.token, last.count);
        lemma_has_read_expand(ops.drop_last());
        if has_read(ops) {
            let i = choose|i: int| 0 <= i < ops.len() && (#[trigger] ops[i]).token == Token::Read;
            if i < ops.len() - 1 {
                assert(ops.drop_last()[i].token == Token::Read);
                let j = choose|j: int| 0 <= j < before.len() && before[j] == Token::Read;
                assert(all[j] == Token::Read);
            } else {
                assert(run[0] == Token::Read);
                assert(all[before.len() as int] == Token::Read);
            }
        }
        if all.contains(Token::Read) {
            let j = choose|j: int| 0 <= j < all.len() && all[j] == Token::Read;
            if j < before.len() {
                assert(before[j] == Token::Read);
                let i = choose|i: int|
                    0 <= i < ops.drop_last().len() && (#[trigger] ops.drop_last()[i]).token
                        == Token::Read;
                assert(ops[i].token == Token::Read);
            } else {
                assert(run[j - before.len()] == Token::Read);
                assert(ops[ops.len() - 1].token == Token::Read);
            }
        }
    }
}

/// The needs-input flag of a parsed program is set just when the source text
/// holds a read instruction, wherever in it and however deep in loops.
pub proof fn lemma_needs_input<T: TokenExt>(code: Seq<char>)
    ensures
        program(T::tokenized(code)).needs_input <==> code.contains(','),
{
    T::tokenized_expands(code);
    lemma_has_read_expand(T::tokenized(code));
    lemma_instructions_contains(code, Token::Read);
}

/// Every level of a structured program is in normal form: its blocks are not
/// empty and hold no loop marker, and no block follows another.
pub proof fn lemma_level_normal(ops: Seq<Op>, from: int)
    ensures
        normal(level(ops, from)),
    decreases
        (if from < ops.len() {
            ops.len() - from
        } else {
            0
        }),
{
    let segments = level(ops, from);
    if from < 0 || from >= ops.len() || ops[from].token == Token::LoopEnd {
    } else if ops[from].token == Token::LoopStart {
        let close = level_end(ops, from + 1, 0);
        let body = level(ops, from + 1);
        let behind = level(ops, close + 1);
        lemma_level_end_bounds(ops, from + 1, 0);
        lemma_level_normal(ops, from + 1);
        lemma_level_normal(ops, close + 1);
        assert forall|i: int| 0 <= i < segments.len() implies match #[trigger] segments[i] {
            SegmentView::Executable(run) => proper_block(run) && (i + 1 < segments.len()
                ==> segments[i + 1] is Loop),
            SegmentView::Loop(inner) => normal(inner),
        } by {
            if i > 0 {
                assert(segments[i] == behind[i - 1]);
                if i + 1 < segments.len() {
                    assert(segments[i + 1] == behind[i]);
                }
            }
        }
    } else {
        let rest = level(ops, from + 1);
        let op = ops[from];
        lemma_level_normal(ops, from + 1);
        assert forall|i: int| 0 <= i < segments.len() implies match #[trigger] segments[i] {
            SegmentView::Executable(run) => proper_block(run) && (i + 1 < segments.len()
                ==> segments[i + 1] is Loop),
            SegmentView::Loop(inner) => normal(inner),
        } by {
            if rest.len() > 0 && rest[0] is Executable {
                let first = rest[0]->Executable_0;
                assert(segments[i] == if i == 0 {
                    SegmentView::Executable(seq![op] + first)
                } else {
                    rest[i]
                });
                if i + 1 < segments.len() {
                    assert(segments[i + 1] == rest[i + 1]);
                }
                if i == 0 {
                    let run = seq![op] + first;
                    assert forall|j: int| 0 <= j < run.len() implies !(#[trigger] run[j]).token.is_bracket() by {
                        if j > 0 {
                            assert(run[j] == first[j - 1]);
                        }
                    }
                }
            } else {
                if i > 0 {
                    assert(segments[i] == rest[i - 1]);
                    if i + 1 < segments.len() {
                        assert(segments[i + 1] == rest[i]);
                    }
                } else {
                    if i + 1 < segments.len() {
                        assert(segments[i + 1] == rest[0]);
                    }
                }
            }
        }
    }
}

/// The instructions of two token sequences in a row.
pub proof fn lemma_tokens_of_add(a: Seq<Op>, b: Seq<Op>)
    ensures
        tokens_of(a + b) == tokens_of(a) + tokens_of(b),
{
    assert(tokens_of(a + b) =~= tokens_of(a) + tokens_of(b));
}

/// The skeleton of two segment sequences in a row.
pub proof fn lemma_skeleton_add(a: Seq<SegmentView>, b: Seq<SegmentView>)
    ensures
        skeleton(a + b) == skeleton(a) + skeleton(b),
    decreases b.len(),
{
    if b.len() == 0 {
        assert(a + b =~= a);
        assert(skeleton(a) + skeleton(b) =~= skeleton(a));
    } else {
        lemma_skeleton_add(a, b.drop_last());
        assert((a + b).drop_last() =~= a + b.drop_last());
        assert((a + b).last() == b.last());
        assert(skeleton(a + b) =~= skeleton(a) + skeleton(b));
    }
}

/// The skeleton of one segment.
pub proof fn lemma_skeleton_single(segment: SegmentView)
    ensures
        skeleton(seq![segment]) == (match segment {
            SegmentView::Executable(run) => tokens_of(run),
            SegmentView::Loop(body) => seq![Token::LoopStart] + skeleton(body) + seq![
                Token::LoopEnd,
            ],
        }),
{
    let one = seq![segment];
    assert(one.drop_last() =~= Seq::<SegmentView>::empty());
    assert(one.last() == segment);
    assert(skeleton(one.drop_last()) =~= Seq::<Token>::empty());
    match segment {
        SegmentView::Executable(run) => {
            assert(skeleton(one) =~= tokens_of(run));
        },
        SegmentView::Loop(body) => {
            assert(skeleton(one) =~= seq![Token::LoopStart] + skeleton(body) + seq![
                Token::LoopEnd,
            ]);
        },
    }
}

/// A token put in front of a level comes first in its skeleton.
pub proof fn lemma_skeleton_prepend(op: Op, segments: Seq<SegmentView>)
    ensures
        skeleton(prepend(op, segments)) == seq![op.token] + skeleton(segments),
{
    if segments.len() > 0 && segments[0] is Executable {
        let first = segments[0]->Executable_0;
        let joined = SegmentView::Executable(seq![op] + first);
        lemma_skeleton_add(seq![joined], segments.drop_first());
        lemma_skeleton_single(joined);
        lemma_skeleton_single(segments[0]);
        lemma_skeleton_add(seq![segments[0]], segments.drop_first());
        lemma_tokens_of_add(seq![op], first);
        assert(tokens_of(seq![op]) =~= seq![op.token]);
        assert(seq![segments[0]] + segments.drop_first() =~= segments);
        assert(skeleton(prepend(op, segments)) =~= seq![op.token] + skeleton(segments));
    } else {
        let single = SegmentView::Executable(seq![op]);
        lemma_skeleton_add(seq![single], segments);
        lemma_skeleton_single(single);
        assert(tokens_of(seq![op]) =~= seq![op.token]);
    }
}

/// Where fewer loops are open at the end of the tokens than `depth + 1`
/// levels below position `from`, the level that is `depth` levels up ends at a
/// loop end.
pub proof fn lemma_level_end_found(ops: Seq<Op>, from: int, depth: nat)
    requires
        0 <= from <= ops.len(),
        depth_after(ops, ops.len() as int) <= depth_after(ops, from) - depth - 1,
    ensures
        level_end(ops, from, depth) < ops.len(),
    decreases ops.len() - from,
{
    if from < ops.len() {
        assert(depth_after(ops, from + 1) == depth_after(ops, from) + (if ops[from].token
            == Token::LoopStart {
            1int
        } else if ops[from].token == Token::LoopEnd {
            -1int
        } else {
            0int
        }));
        if ops[from].token == Token::LoopStart {
            lemma_level_end_found(ops, from + 1, depth + 1);
        } else if ops[from].token == Token::LoopEnd {
            if depth > 0 {
                lemma_level_end_found(ops, from + 1, (depth - 1) as nat);
            }
        } else {
            lemma_level_end_found(ops, from + 1, depth);
        }
    }
}

/// Where the loop markers match, the skeleton of a level is the
/// instructions from where the level starts to where it ends.
pub proof fn lemma_skeleton_of_level(ops: Seq<Op>, from: int)
    requires
        balanced(ops),
        0 <= from <= ops.len(),
    ensures
        skeleton(level(ops, from)) == tokens_of(ops.subrange(from, level_end(ops, from, 0))),
    decreases ops.len() - from,
{
    lemma_level_end_bounds(ops, from, 0);
    let end = level_end(ops, from, 0);
    if from >= ops.len() || ops[from].token == Token::LoopEnd {
        assert(ops.subrange(from, end) =~= Seq::<Op>::empty());
        assert(tokens_of(ops.subrange(from, end)) =~= Seq::<Token>::empty());
    } else if ops[from].token == Token::LoopStart {
        let close = level_end(ops, from + 1, 0);
        let body = level(ops, from + 1);
        let behind = level(ops, close + 1);
        assert(depth_after(ops, from) >= 0);
        assert(depth_after(ops, from + 1) == depth_after(ops, from) + 1);
        lemma_level_end_found(ops, from + 1, 0);
        lemma_level_end_bounds(ops, from + 1, 0);
        lemma_level_end_nested(ops, from + 1, 0);
        lemma_level_end_bounds(ops, close + 1, 0);
        lemma_skeleton_of_level(ops, from + 1);
        lemma_skeleton_of_level(ops, close + 1);
        lemma_skeleton_add(seq![SegmentView::Loop(body)], behind);
        lemma_skeleton_single(SegmentView::Loop(body));
        assert(tokens_of(ops.subrange(from, end)) =~= seq![Token::LoopStart] + tokens_of(
            ops.subrange(from + 1, close),
        ) + seq![Token::LoopEnd] + tokens_of(ops.subrange(close + 1, end)));
    } else {
        lemma_skeleton_of_level(ops, from + 1);
        lemma_skeleton_prepend(ops[from], level(ops, from + 1));
        assert(tokens_of(ops.subrange(from, end)) =~= seq![ops[from].token] + tokens_of(
            ops.subrange(from + 1, end),
        ));
    }
}

/// Structuring can be undone: where the loop markers match, the tree is in
/// normal form, putting the loop markers back around the loops gives the
/// instructions of the flat sequence, and the blocks hold its tokens that are
/// no loop markers. No other tree in normal form does both.
pub proof fn lemma_structuring_is_lossless(ops: Seq<Op>)
    requires
        balanced(ops),
    ensures
        normal(structured(ops)),
        skeleton(structured(ops)) == tokens_of(ops),
        leaves(structured(ops)) == non_brackets(ops),
{
    assert(depth_after(ops, 0) == 0);
    lemma_level_normal(ops, 0);
    lemma_level_end_without_unmatched(ops, 0, 0);
    lemma_skeleton_of_level(ops, 0);
    lemma_leaves_of_level(ops, 0);
    assert(ops.subrange(0, ops.len() as int) =~= ops);
}

/// The tokens that are no loop markers hold no loop marker, and a read that
/// repeats among them is one of the whole sequence.
pub proof fn lemma_non_brackets_faults(ops: Seq<Op>)
    ensures
        !has_marker(non_brackets(ops)),
        has_repeated_read(non_brackets(ops)) == has_repeated_read(ops),
    decreases ops.len(),
{
    if ops.len() > 0 {
        let before = ops.drop_last();
        lemma_non_brackets_faults(before);
        lemma_faults_add(before, seq![ops.last()]);
        assert(before + seq![ops.last()] =~= ops);
        let one = seq![ops.last()];
        assert(has_marker(one) ==> one[0].token.is_bracket());
        assert(has_repeated_read(one) ==> one[0].token == Token::Read);
        if ops.last().token.is_bracket() {
            assert(!has_repeated_read(one));
        } else {
            lemma_faults_add(non_brackets(before), one);
            assert(non_brackets(before).push(ops.last()) =~= non_brackets(before) + one);
        }
    }
}

/// Generation of a parsed program fails only for a read that repeats: the
/// blocks of a structured program hold no loop marker.
pub proof fn lemma_parsed_program_generates(config: BrainfuckToRust, ops: Seq<Op>)
    ensures
        !has_marker(leaves(structured(ops))),
        generated(config, program(ops)) is Err ==> generated(config, program(ops)) == Err::<
            Seq<char>,
            GenerateError,
        >(GenerateError::RepeatedRead),
        balanced(ops) ==> (generated(config, program(ops)) is Err <==> has_repeated_read(ops)),
{
    lemma_leaves_of_level(ops, 0);
    lemma_non_brackets_faults(ops.subrange(0, level_end(ops, 0, 0)));
    if balanced(ops) {
        lemma_structuring_preserves_order(ops);
        lemma_non_brackets_faults(ops);
    }
}

/// Generation is a function of the configuration and of what the program
/// holds: programs that are alike are given the same text, or refused alike,
/// whenever they are generated.
pub proof fn lemma_generation_is_deterministic<T: TokenExt>(
    config: BrainfuckToRust,
    first: File<T>,
    second: File<T>,
)
    requires
        first@ == second@,
    ensures
        generated(config, first@) == generated(config, second@),
{
}

} // verus!
