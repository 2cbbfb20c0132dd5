//! Tokens, token sequences and the segment tree of a Brainfuck program.

use vstd::prelude::*;
use crate::laws::{
    lemma_expand_run_length, lemma_expand_singles, lemma_level_end_nested, lemma_level_of_suffix,
    lemma_run_length_counts, lemma_with_run_push,
};
use crate::model::{
    FileView, Op, SegmentView, expand, has_read, instructions, lemma_level_end_bounds, level,
    level_end, merges, run_length, singles, structured, with_run,
};

verus! {

/// One of the eight instructions of the language.
#[derive(Debug, Clone, Copy, PartialEq, Eq, Structural)]
pub enum Token {
    /// Move the pointer to the right.
    PointerAdd,
    /// Move the pointer to the left.
    PointerSub,
    /// Increment the memory cell under the pointer.
    ValueAdd,
    /// Decrement the memory cell under the pointer.
    ValueSub,
    /// Input a character and store it in the cell at the pointer.
    Read,
    /// Output the character signified by the cell at the pointer.
    Write,
    /// Mark the beginning of a loop.
    LoopStart,
    /// Skip if the cell under the pointer is 0, otherwise jump back to the matching `[`.
    LoopEnd,
}

impl Token {
    /// The character that stands for this instruction in source text.
    pub open spec fn spec_as_char(&self) -> char {
        match self {
            Token::PointerAdd => '>',
            Token::PointerSub => '<',
            Token::ValueAdd => '+',
            Token::ValueSub => '-',
            Token::Read => ',',
            Token::Write => '.',
            Token::LoopStart => '[',
            Token::LoopEnd => ']',
        }
    }

    /// The instruction that a character stands for, if it stands for one.
    pub open spec fn spec_from_char(c: char) -> Option<Token> {
        if c == '>' {
            Some(Token::PointerAdd)
        } else if c == '<' {
            Some(Token::PointerSub)
        } else if c == '+' {
            Some(Token::ValueAdd)
        } else if c == '-' {
            Some(Token::ValueSub)
        } else if c == ',' {
            Some(Token::Read)
        } else if c == '.' {
            Some(Token::Write)
        } else if c == '[' {
            Some(Token::LoopStart)
        } else if c == ']' {
            Some(Token::LoopEnd)
        } else {
            None
        }
    }

    /// Whether this instruction opens or closes a loop.
    pub open spec fn is_bracket(&self) -> bool {
        *self == Token::LoopStart || *self == Token::LoopEnd
    }

    /// The character that stands for this instruction.
    #[verifier::when_used_as_spec(spec_as_char)]
    pub fn as_char(&self) -> (c: char)
        ensures
            c == self.spec_as_char(),
    {
        match self {
            Token::PointerAdd => '>',
            Token::PointerSub => '<',
            Token::ValueAdd => '+',
            Token::ValueSub => '-',
            Token::Read => ',',
            Token::Write => '.',
            Token::LoopStart => '[',
            Token::LoopEnd => ']',
        }
    }

    /// The instruction that a character stands for, if it stands for one.
    pub fn from_char(c: char) -> (token: Option<Token>)
        ensures
            token == Token::spec_from_char(c),
    {
        match c {
            '>' => Some(Token::PointerAdd),
            '<' => Some(Token::PointerSub),
            '+' => Some(Token::ValueAdd),
            '-' => Some(Token::ValueSub),
            ',' => Some(Token::Read),
            '.' => Some(Token::Write),
            '[' => Some(Token::LoopStart),
            ']' => Some(Token::LoopEnd),
            _ => None,
        }
    }
}

/// What the tokenizer, the structurer and the generator ask of a token: its
/// instruction and how often it repeats.
pub trait TokenExt: Sized {
    /// The instruction and repeat count that this token stands for.
    spec fn op(&self) -> Op;

    /// The tokens that `tokenize` makes of a source text.
    spec fn tokenized(code: Seq<char>) -> Seq<Op>;

    /// The instruction of this token.
    fn token(&self) -> (token: Token)
        ensures
            token == self.op().token,
    ;

    /// How often the instruction repeats.
    fn count(&self) -> (count: usize)
        ensures
            count == self.op().count,
    ;

    /// The tokens of a source text. Every text has tokens: what is no
    /// instruction is dropped.
    fn tokenize(code: &str) -> (tokens: Tokens<Self>)
        ensures
            tokens.tokens@.map_values(|token: Self| token.op()) == Self::tokenized(code@),
    ;

    /// Tokenizing loses nothing and keeps the order: expanded, the tokens of a
    /// text are its instructions, and every token stands for at least one.
    proof fn tokenized_expands(code: Seq<char>)
        ensures
            expand(Self::tokenized(code)) == instructions(code),
            forall|i: int|
                0 <= i < Self::tokenized(code).len() ==> (#[trigger] Self::tokenized(
                    code,
                )[i]).count >= 1,
    ;
}

/// An instruction that repeats `count` times.
#[derive(Debug, Clone, Copy, PartialEq, Eq, Structural)]
pub struct Repeated {
    pub token: Token,
    pub count: usize,
}

/// A sequence of tokens.
#[derive(Debug, Clone, PartialEq, Eq)]
pub struct Tokens<T> {
    pub tokens: Vec<T>,
}

/// A node of the structured program.
#[derive(Debug, PartialEq, Eq)]
pub enum Segment<T> {
    Executable(Tokens<T>),
    Loop(Vec<Segment<T>>),
}

/// The instruction and count of each token of a sequence.
pub open spec fn ops_of<T: TokenExt>(tokens: Seq<T>) -> Seq<Op> {
    tokens.map_values(|token: T| token.op())
}

impl<T: TokenExt> View for Tokens<T> {
    type V = Seq<Op>;

    open spec fn view(&self) -> Seq<Op> {
        ops_of(self.tokens@)
    }
}

/// The model of one segment.
pub open spec fn segment_view<T: TokenExt>(segment: Segment<T>) -> SegmentView
    decreases segment,
{
    match segment {
        Segment::Executable(tokens) => SegmentView::Executable(tokens@),
        Segment::Loop(body) => SegmentView::Loop(segments_view(body@)),
    }
}

/// The models of a sequence of segments.
pub open spec fn segments_view<T: TokenExt>(segments: Seq<Segment<T>>) -> Seq<SegmentView>
    decreases segments,
{
    Seq::new(
        segments.len(),
        |i: int|
            if 0 <= i < segments.len() {
                segment_view(segments[i])
            } else {
                SegmentView::Loop(Seq::empty())
            },
    )
}

impl<T: TokenExt> View for Segment<T> {
    type V = SegmentView;

    open spec fn view(&self) -> SegmentView {
        segment_view(*self)
    }
}

/// The models of a sequence of segments with one more at its end.
pub proof fn lemma_segments_view_push<T: TokenExt>(segments: Seq<Segment<T>>, segment: Segment<T>)
    ensures
        segments_view(segments.push(segment)) == segments_view(segments).push(segment@),
{
    assert(segments_view(segments.push(segment)) =~= segments_view(segments).push(segment@));
}

impl<T: TokenExt> Tokens<T> {
    /// The sequence of the given tokens.
    pub fn new(tokens: Vec<T>) -> (result: Self)
        ensures
            result.tokens == tokens,
    {
        Self { tokens }
    }
}

impl<T: TokenExt + Copy> Tokens<T> {
    /// Structures the flat token sequence into the tree of its loops. A loop
    /// start that nothing closes takes the rest of the tokens as its body; a
    /// loop end that closes nothing ends the program there.
    pub fn segment(self) -> (segments: Vec<Segment<T>>)
        ensures
            segments_view(segments@) == structured(self@),
    {
        let (segments, _) = Self::segment_inner(self.tokens.as_slice());
        segments
    }

    /// Takes a slice of tokens and gives the segments of the nesting level
    /// that it starts with, and the number of tokens before the loop end that
    /// closes that level.
    fn segment_inner(slice: &[T]) -> (result: (Vec<Segment<T>>, usize))
        ensures
            segments_view(result.0@) == level(ops_of(slice@), 0),
            result.1 == level_end(ops_of(slice@), 0, 0),
        decreases slice.len(),
    {
        let ghost ops = ops_of(slice@);
        let mut segments: Vec<Segment<T>> = Vec::new();
        let mut code: Vec<T> = Vec::new();
        let mut consumed: usize = 0;

        while consumed < slice.len()
            invariant
                consumed <= slice.len(),
                ops == ops_of(slice@),
                level(ops, 0) == segments_view(segments@) + with_run(
                    ops_of(code@),
                    level(ops, consumed as int),
                ),
                level_end(ops, 0, 0) == level_end(ops, consumed as int, 0),
            decreases slice.len() - consumed,
        {
            let token = slice[consumed];
            assert(ops[consumed as int] == token.op());
            match token.token() {
                Token::LoopStart => {
                    if code.len() > 0 {
                        proof {
                            lemma_segments_view_push(
                                segments@,
                                Segment::Executable(Tokens { tokens: code }),
                            );
                            assert(level(ops, 0) =~= segments_view(segments@).push(
                                SegmentView::Executable(ops_of(code@)),
                            ) + level(ops, consumed as int));
                        }
                        segments.push(Segment::Executable(Tokens::new(code)));
                        code = Vec::new();
                    }
                    assert(level(ops, 0) == segments_view(segments@) + level(ops, consumed as int));
                    let rest = &slice[consumed + 1..slice.len()];
                    let (inner, count) = Self::segment_inner(rest);
                    let ghost body = level(ops, consumed + 1);
                    let ghost behind = level(ops, level_end(ops, consumed + 1, 0) + 1);
                    proof {
                        assert(ops_of(rest@) =~= ops.subrange(consumed + 1, ops.len() as int));
                        lemma_level_of_suffix(ops, consumed + 1, 0, 0);
                        lemma_level_end_bounds(ops, consumed + 1, 0);
                        lemma_level_end_nested(ops, consumed + 1, 0);
                        lemma_segments_view_push(segments@, Segment::Loop(inner));
                        assert(level(ops, consumed as int) == seq![SegmentView::Loop(body)]
                            + behind);
                        assert(level(ops, 0) =~= segments_view(segments@).push(
                            SegmentView::Loop(body),
                        ) + behind);
                    }
                    segments.push(Segment::Loop(inner));
                    // Skip the body, and the loop end where there is one.
                    let close = consumed + 1 + count;
                    consumed = if close < slice.len() {
                        close + 1
                    } else {
                        close
                    };
                    proof {
                        assert(behind == level(ops, consumed as int));
                        assert(ops_of(code@).len() == 0);
                    }
                },
                Token::LoopEnd => {
                    if code.len() > 0 {
                        proof {
                            lemma_segments_view_push(
                                segments@,
                                Segment::Executable(Tokens { tokens: code }),
                            );
                        }
                        segments.push(Segment::Executable(Tokens::new(code)));
                    }
                    return (segments, consumed);
                },
                _ => {
                    proof {
                        lemma_with_run_push(
                            ops_of(code@),
                            token.op(),
                            level(ops, consumed + 1),
                        );
                        assert(ops_of(code@.push(token)) =~= ops_of(code@).push(token.op()));
                    }
                    code.push(token);
                    consumed += 1;
                },
            }
        }
        if code.len() > 0 {
            proof {
                lemma_segments_view_push(segments@, Segment::Executable(Tokens { tokens: code }));
            }
            segments.push(Segment::Executable(Tokens::new(code)));
        }
        (segments, consumed)
    }
}

/// A copy of a sequence of tokens.
fn clone_tokens<T: Copy>(tokens: &Vec<T>) -> (copy: Vec<T>)
    ensures
        copy@ == tokens@,
{
    let mut copy: Vec<T> = Vec::new();
    let mut i: usize = 0;
    while i < tokens.len()
        invariant
            i <= tokens.len(),
            copy@ == tokens@.take(i as int),
        decreases tokens.len() - i,
    {
        copy.push(tokens[i]);
        proof {
            assert(copy@ =~= tokens@.take(i + 1));
        }
        i += 1;
    }
    proof {
        assert(copy@ =~= tokens@);
    }
    copy
}

/// A copy of a sequence of segments.
fn clone_segments<T: TokenExt + Copy>(segments: &Vec<Segment<T>>) -> (copy: Vec<Segment<T>>)
    ensures
        segments_view(copy@) == segments_view(segments@),
    decreases segments,
{
    let mut copy: Vec<Segment<T>> = Vec::new();
    let mut i: usize = 0;
    while i < segments.len()
        invariant
            i <= segments.len(),
            segments_view(copy@) == segments_view(segments@).take(i as int),
        decreases segments.len() - i,
    {
        let segment = match &segments[i] {
            Segment::Executable(tokens) => Segment::Executable(
                Tokens { tokens: clone_tokens(&tokens.tokens) },
            ),
            Segment::Loop(body) => Segment::Loop(clone_segments(body)),
        };
        proof {
            lemma_segments_view_push(copy@, segment);
            assert(segments_view(segments@).take(i + 1) =~= segments_view(segments@).take(
                i as int,
            ).push(segments@[i as int]@));
        }
        copy.push(segment);
        i += 1;
    }
    proof {
        assert(segments_view(segments@).take(segments@.len() as int) =~= segments_view(
            segments@,
        ));
    }
    copy
}

impl<T: TokenExt + Copy> Clone for Segment<T> {
    fn clone(&self) -> (copy: Self)
        ensures
            copy@ == self@,
    {
        match self {
            Segment::Executable(tokens) => Segment::Executable(
                Tokens { tokens: clone_tokens(&tokens.tokens) },
            ),
            Segment::Loop(body) => Segment::Loop(clone_segments(body)),
        }
    }
}

/// A structured program.
#[derive(Debug, PartialEq, Eq)]
pub struct File<T> {
    pub segments: Vec<Segment<T>>,
    /// Whether the program holds a read instruction, at any depth.
    pub needs_input: bool,
}

impl<T: TokenExt> View for File<T> {
    type V = FileView;

    open spec fn view(&self) -> FileView {
        FileView { segments: segments_view(self.segments@), needs_input: self.needs_input }
    }
}

/// Why a source text could not be parsed. Every text is a program, so no
/// value of this type exists.
#[derive(Debug, Clone, Copy, PartialEq, Eq)]
pub enum ParseFileError {
    Never(core::convert::Infallible),
}

/// The program that a token sequence stands for.
pub open spec fn program(ops: Seq<Op>) -> FileView {
    FileView { segments: structured(ops), needs_input: has_read(ops) }
}

impl<T: TokenExt + Copy> Clone for File<T> {
    fn clone(&self) -> (copy: Self)
        ensures
            copy@ == self@,
    {
        File { segments: clone_segments(&self.segments), needs_input: self.needs_input }
    }
}

impl<T: TokenExt + Copy> File<T> {
    /// Tokenizes and structures a source text. Every text is accepted.
    pub fn from_str(s: &str) -> (result: Result<Self, ParseFileError>)
        ensures
            result matches Ok(file) && file@ == program(T::tokenized(s@)),
    {
        let tokens = T::tokenize(s);
        let ghost ops = T::tokenized(s@);
        assert(tokens@ == ops);

        let mut needs_input = false;
        let mut i: usize = 0;
        while i < tokens.tokens.len()
            invariant
                i <= tokens.tokens.len(),
                tokens@ == ops,
                needs_input <==> exists|j: int| 0 <= j < i && (#[trigger] ops[j]).token == Token::Read,
            decreases tokens.tokens.len() - i,
        {
            assert(ops[i as int] == tokens.tokens@[i as int].op());
            if tokens.tokens[i].token() == Token::Read {
                needs_input = true;
            }
            i += 1;
        }

        let segments = tokens.segment();
        Ok(Self { segments, needs_input })
    }
}

impl<T: TokenExt + Copy> core::str::FromStr for File<T> {
    type Err = ParseFileError;

    /// Tokenizes and structures a source text, as the function of the same
    /// name of `File` does. Every text is accepted.
    fn from_str(s: &str) -> (result: Result<Self, Self::Err>)
        ensures
            result matches Ok(file) && file@ == program(T::tokenized(s@)),
    {
        File::from_str(s)
    }
}

impl TokenExt for Token {
    open spec fn op(&self) -> Op {
        Op { token: *self, count: 1 }
    }

    open spec fn tokenized(code: Seq<char>) -> Seq<Op> {
        singles(instructions(code))
    }

    fn token(&self) -> (token: Token) {
        *self
    }

    fn count(&self) -> (count: usize) {
        1
    }

    /// One token for each instruction character of `code`.
    fn tokenize(code: &str) -> (tokens: Tokens<Token>) {
        broadcast use vstd::string::group_string_axioms;

        let mut tokens: Vec<Token> = Vec::new();
        for c in it: code.chars()
            invariant
                it.seq() == code@,
                tokens@ == instructions(code@.take(it.index())),
        {
            proof {
                let next = code@.take(it.index() + 1);
                assert(next.drop_last() == code@.take(it.index()));
                assert(next.last() == c);
            }
            if let Some(token) = Token::from_char(c) {
                tokens.push(token);
            }
        }
        proof {
            assert(code@.take(code@.len() as int) == code@);
            assert(tokens@.map_values(|token: Token| token.op()) =~= singles(tokens@));
        }
        Tokens { tokens }
    }

    proof fn tokenized_expands(code: Seq<char>) {
        lemma_expand_singles(instructions(code));
    }
}

/// The instruction and count of each run-length token of a sequence.
pub open spec fn repeated_ops(tokens: Seq<Repeated>) -> Seq<Op> {
    tokens.map_values(|token: Repeated| Op { token: token.token, count: token.count as nat })
}

impl Repeated {
    /// Run-length compression in one forward scan: consecutive equal
    /// instructions become one token; loop markers are never merged.
    pub fn compress(unoptimized: &Vec<Token>) -> (tokens: Vec<Repeated>)
        ensures
            repeated_ops(tokens@) == run_length(unoptimized@),
    {
        let ghost source = unoptimized@;
        let mut tokens: Vec<Repeated> = Vec::new();
        let mut next: usize = 0;
        while next < unoptimized.len()
            invariant
                next <= unoptimized.len(),
                source == unoptimized@,
                repeated_ops(tokens@) == run_length(source.take(next as int)),
                next < source.len() && tokens.len() > 0 ==> !merges(
                    repeated_ops(tokens@).last(),
                    source[next as int],
                ),
            decreases unoptimized.len() - next,
        {
            let token = unoptimized[next];
            let ghost start = next;
            let mut count: usize = 1;
            proof {
                let taken = source.take(next + 1);
                assert(taken.drop_last() == source.take(next as int));
                assert(taken.last() == token);
            }
            next += 1;
            // Look one token ahead, and take it where it repeats `token`.
            while next < unoptimized.len() && !matches!(token, Token::LoopStart | Token::LoopEnd)
                && unoptimized[next] == token
                invariant
                    1 <= count <= next <= unoptimized.len(),
                    start < next,
                    source == unoptimized@,
                    repeated_ops(tokens@).push(Op { token, count: count as nat }) == run_length(
                        source.take(next as int),
                    ),
                decreases unoptimized.len() - next,
            {
                proof {
                    let taken = source.take(next + 1);
                    assert(taken.drop_last() == source.take(next as int));
                    assert(taken.last() == token);
                    let before = repeated_ops(tokens@).push(Op { token, count: count as nat });
                    assert(before.drop_last() == repeated_ops(tokens@));
                }
                count += 1;
                next += 1;
            }
            proof {
                assert(repeated_ops(tokens@.push(Repeated { token, count })) =~= repeated_ops(
                    tokens@,
                ).push(Op { token, count: count as nat }));
            }
            tokens.push(Repeated { token, count });
        }
        proof {
            assert(source.take(source.len() as int) == source);
        }
        tokens
    }
}

impl TokenExt for Repeated {
    open spec fn op(&self) -> Op {
        Op { token: self.token, count: self.count as nat }
    }

    open spec fn tokenized(code: Seq<char>) -> Seq<Op> {
        run_length(instructions(code))
    }

    fn token(&self) -> (token: Token) {
        self.token
    }

    fn count(&self) -> (count: usize) {
        self.count
    }

    /// One token for each maximal run of one instruction in `code`; every loop
    /// marker is a token of its own.
    fn tokenize(code: &str) -> (tokens: Tokens<Repeated>) {
        let unoptimized = Token::tokenize(code).tokens;
        proof {
            let source = unoptimized@;
            assert(source.map_values(|token: Token| token.op()) =~= singles(source));
            assert(source =~= instructions(code@)) by {
                assert(singles(source).len() == source.len());
                assert(singles(instructions(code@)).len() == instructions(code@).len());
                assert forall|i: int| 0 <= i < source.len() implies source[i] == instructions(
                    code@,
                )[i] by {
                    assert(singles(source)[i].token == source[i]);
                    assert(singles(instructions(code@))[i].token == instructions(code@)[i]);
                }
            }
        }
        let tokens = Repeated::compress(&unoptimized);
        proof {
            assert(tokens@.map_values(|token: Repeated| token.op()) =~= repeated_ops(tokens@));
        }
        Tokens { tokens }
    }

    proof fn tokenized_expands(code: Seq<char>) {
        lemma_expand_run_length(instructions(code));
        lemma_run_length_counts(instructions(code));
    }
}

} // verus!
