//! Lowers a structured program to the source text of a Rust program, under
//! the policies of a configuration.

use vstd::prelude::*;
use crate::ast::{File, Segment, Token, TokenExt, Tokens, segments_view};
use crate::input::AsciiText;
use crate::literal::{
    byte_literal, byte_literal_text, decimal, string_literal, string_literal_text, u16_literal,
    u32_literal, u8_literal, usize_literal,
};
use crate::model::{FileView, Op, SegmentView, leaves};

verus! {

/// The size of a cell on the tape
#[derive(Debug, Clone, Copy, PartialEq, Eq, Structural)]
pub enum CellSize {
    /// `u8`
    U8,
    /// `u16`
    U16,
    /// `u32`
    U32,
}

/// How to handle pointer overflow/underflow
#[derive(Debug, Clone, Copy, PartialEq, Eq, Structural)]
pub enum PointerSafety {
    /// Wrap around to the maximum pointer size or zero
    Wrap,
    /// Do nothing when at a memory boundary
    Clamp,
    /// Do not check, behavior depends on build type + platform
    Unchecked,
}

/// How to handle cell overflow/underflow
#[derive(Debug, Clone, Copy, PartialEq, Eq, Structural)]
pub enum OverflowBehavior {
    /// Wrap the value around to the minimum or the maximum of the cell
    Wrap,
    /// Panic if the value overflows/underflows
    Abort,
    /// Do not check, behavior depends on build type + platform
    Unchecked,
}

/// How to handle EOF when reading input
#[derive(Debug, Clone, Copy, PartialEq, Eq, Structural)]
pub enum EofBehavior {
    /// Do not change the value of the cell
    NoChange,
    /// Set the value of the cell to the given value
    Fixed(u8),
}

impl Default for CellSize {
    fn default() -> (size: Self)
        ensures
            size == CellSize::U8,
    {
        CellSize::U8
    }
}

impl Default for PointerSafety {
    fn default() -> (safety: Self)
        ensures
            safety == PointerSafety::Unchecked,
    {
        PointerSafety::Unchecked
    }
}

impl Default for OverflowBehavior {
    fn default() -> (behavior: Self)
        ensures
            behavior == OverflowBehavior::Unchecked,
    {
        OverflowBehavior::Unchecked
    }
}

impl Default for EofBehavior {
    fn default() -> (behavior: Self)
        ensures
            behavior == EofBehavior::NoChange,
    {
        EofBehavior::NoChange
    }
}

/// The configuration of one generation run.
#[derive(Debug)]
pub struct BrainfuckToRust {
    /// The size of the memory array ("tape")
    pub memory_size: usize,
    pub pointer_safety: PointerSafety,
    pub overflow_behavior: OverflowBehavior,
    pub cell_size: CellSize,
    /// Input to build into the program, in place of what it would read when it runs
    pub fixed_input: Option<AsciiText>,
    pub eof_behavior: EofBehavior,
}

/// Why a program cannot be generated.
#[derive(Debug, Clone, Copy, PartialEq, Eq, Structural)]
pub enum GenerateError {
    /// A straight-line block holds a loop marker. No parsed program does.
    MisplacedLoopMarker,
    /// A read is to run more than once in a row.
    RepeatedRead,
}

/// The start of the program, up to the size of the tape.
pub const PROGRAM_HEAD: &'static str =
    "use ascii::ToAsciiChar;\n\nfn main() {\nconst MEM_SIZE: usize = ";

/// The declarations of the pointer and of the tape, behind the cell type.
pub const TAPE: &'static str =
    ";\nlet mut pointer = 0usize;\nlet mut tape: [Cell; MEM_SIZE] = [0; MEM_SIZE];\n";

/// The start of the statements that write the cell, up to the count.
pub const WRITE_HEAD: &'static str =
    "let __c = tape[pointer].to_ascii_char().unwrap().as_char(); for _ in 0..";

/// The head of a loop: it tests the cell before every round.
pub const LOOP_HEAD: &'static str = "while tape[pointer] != 0 {\n";

/// The start of the statement that reads a byte of input.
pub const READ_HEAD: &'static str =
    "if let Some(_c) = input.get(input_pos) { tape[pointer] = Cell::from(_c.as_byte()); input_pos += ";

/// The declaration of a fixed input, up to its literal.
pub const FIXED_INPUT_HEAD: &'static str = "let input = {\nuse ascii::AsAsciiStr;\nlet input = ";

/// The declaration of a fixed input, behind its literal.
pub const FIXED_INPUT_TAIL: &'static str =
    ";\nlet input_ascii = input.as_ascii_str().expect(\"input is not ASCII\");\ninput_ascii.chars().collect::<Vec<_>>()\n};\nlet mut input_pos = 0usize;\n";

/// The declaration of an input that is all of standard input.
pub const STDIN_INPUT: &'static str =
    "use ascii::AsciiChar;\nlet input = {\nuse std::io::Read;\nuse ascii::AsAsciiStr;\nlet mut stdin = std::io::stdin();\nlet mut input = String::new();\nstdin.read_to_string(&mut input).expect(\"failed to read stdin\");\nlet input_ascii = input.as_ascii_str().expect(\"input is not ASCII\");\ninput_ascii.chars().collect::<Vec<_>>()\n};\nlet mut input_pos = 0usize;\n";

/// Whether some token is a loop marker.
pub open spec fn has_marker(ops: Seq<Op>) -> bool {
    exists|i: int| 0 <= i < ops.len() && (#[trigger] ops[i]).token.is_bracket()
}

/// Whether some token is a read that repeats.
pub open spec fn has_repeated_read(ops: Seq<Op>) -> bool {
    exists|i: int| 0 <= i < ops.len() && (#[trigger] ops[i]).token == Token::Read && ops[i].count > 1
}

/// A `usize` literal.
pub open spec fn usize_text(n: nat) -> Seq<char> {
    decimal(n) + "usize"@
}

/// The number of values of a cell.
pub open spec fn cell_modulus(size: CellSize) -> nat {
    match size {
        CellSize::U8 => 0x100,
        CellSize::U16 => 0x1_0000,
        CellSize::U32 => 0x1_0000_0000,
    }
}

/// The name of the type of a cell.
pub open spec fn cell_type_text(size: CellSize) -> Seq<char> {
    match size {
        CellSize::U8 => "u8"@,
        CellSize::U16 => "u16"@,
        CellSize::U32 => "u32"@,
    }
}

/// A literal of the cell's type: `n` modulo the number of the cell's values.
pub open spec fn cell_text(size: CellSize, n: nat) -> Seq<char> {
    decimal(n % cell_modulus(size)) + cell_type_text(size)
}

/// The statement that moves the pointer to the right by `count` cells, with `n` the literal of `count`.
pub open spec fn pointer_add_text(safety: PointerSafety, n: Seq<char>) -> Seq<char> {
    match safety {
        PointerSafety::Wrap => "pointer = (pointer + "@ + n + ") % MEM_SIZE;"@,
        PointerSafety::Clamp => "pointer = (pointer + "@ + n + ").min(MEM_SIZE - 1);"@,
        PointerSafety::Unchecked => "pointer += "@ + n + ";"@,
    }
}

/// The statement that moves the pointer to the left by `count` cells, with `n` the literal of `count`.
pub open spec fn pointer_sub_text(safety: PointerSafety, n: Seq<char>) -> Seq<char> {
    match safety {
        PointerSafety::Wrap => "pointer = if pointer < "@ + n + " { MEM_SIZE - ("@ + n
            + " - pointer) } else { pointer - "@ + n + " };"@,
        PointerSafety::Clamp => "pointer = pointer.max("@ + n + ") - "@ + n + ";"@,
        PointerSafety::Unchecked => "pointer -= "@ + n + ";"@,
    }
}

/// The statement that adds `count` to the cell. `fits` says that `count` is
/// less than the number of the cell's values, and `v` is the cell literal of `count`.
pub open spec fn value_add_text(behavior: OverflowBehavior, fits: bool, v: Seq<char>) -> Seq<char> {
    match behavior {
        OverflowBehavior::Unchecked => "tape[pointer] += "@ + v + ";"@,
        OverflowBehavior::Wrap => "tape[pointer] = tape[pointer].wrapping_add("@ + v + ");"@,
        OverflowBehavior::Abort => if fits {
            "tape[pointer] = tape[pointer].checked_add("@ + v + ").unwrap();"@
        } else {
            "panic!(\"cell overflow\");"@
        },
    }
}

/// The statement that subtracts `count` from the cell. `fits` says that `count` is
/// less than the number of the cell's values, and `v` is the cell literal of `count`.
pub open spec fn value_sub_text(behavior: OverflowBehavior, fits: bool, v: Seq<char>) -> Seq<char> {
    match behavior {
        OverflowBehavior::Unchecked => "tape[pointer] -= "@ + v + ";"@,
        OverflowBehavior::Wrap => "tape[pointer] = tape[pointer].wrapping_sub("@ + v + ");"@,
        OverflowBehavior::Abort => if fits {
            "tape[pointer] = tape[pointer].checked_sub("@ + v + ").unwrap();"@
        } else {
            "panic!(\"cell underflow\");"@
        },
    }
}

/// The statement that reads one byte of input into the cell, with `n` the literal of the count.
pub open spec fn read_text(behavior: EofBehavior, n: Seq<char>) -> Seq<char> {
    match behavior {
        EofBehavior::NoChange => READ_HEAD@ + n + "; }"@,
        EofBehavior::Fixed(value) => READ_HEAD@ + n + "; } else { tape[pointer] = Cell::from("@
            + byte_literal_text(value) + "); }"@,
    }
}

/// The statements that write the cell `count` times, with `n` the literal of `count`.
pub open spec fn write_text(n: Seq<char>) -> Seq<char> {
    WRITE_HEAD@ + n + " { print!(\"{}\", __c); }"@
}

/// The statement that one token is lowered to. A loop marker has none.
pub open spec fn statement_text(config: BrainfuckToRust, op: Op) -> Seq<char> {
    let n = usize_text(op.count);
    let v = cell_text(config.cell_size, op.count);
    let fits = op.count < cell_modulus(config.cell_size);
    match op.token {
        Token::PointerAdd => pointer_add_text(config.pointer_safety, n),
        Token::PointerSub => pointer_sub_text(config.pointer_safety, n),
        Token::ValueAdd => value_add_text(config.overflow_behavior, fits, v),
        Token::ValueSub => value_sub_text(config.overflow_behavior, fits, v),
        Token::Read => read_text(config.eof_behavior, n),
        Token::Write => write_text(n),
        Token::LoopStart => Seq::empty(),
        Token::LoopEnd => Seq::empty(),
    }
}

/// The text of a straight-line block: one line for each token, in order.
pub open spec fn block_text(config: BrainfuckToRust, ops: Seq<Op>) -> Seq<char>
    decreases ops.len(),
{
    if ops.len() == 0 {
        Seq::empty()
    } else {
        block_text(config, ops.drop_last()) + statement_text(config, ops.last()) + "\n"@
    }
}

/// The text of a segment tree, in pre-order: a block's statements, and for a
/// loop its body inside a `while` that tests the cell before every round.
pub open spec fn body_text(config: BrainfuckToRust, segments: Seq<SegmentView>) -> Seq<char>
    decreases segments,
{
    if segments.len() == 0 {
        Seq::empty()
    } else {
        match segments.last() {
            SegmentView::Executable(ops) => body_text(config, segments.drop_last()) + block_text(
                config,
                ops,
            ),
            SegmentView::Loop(body) => body_text(config, segments.drop_last())
                + LOOP_HEAD@ + body_text(config, body) + "}\n"@,
        }
    }
}

/// The text that declares the input of the program: the fixed input where
/// one is configured, else all of standard input where the program reads,
/// else nothing.
pub open spec fn input_text(config: BrainfuckToRust, needs_input: bool) -> Seq<char> {
    match config.fixed_input {
        Some(fixed) => FIXED_INPUT_HEAD@ + string_literal_text(fixed@) + FIXED_INPUT_TAIL@,
        None => if needs_input {
            STDIN_INPUT@
        } else {
            Seq::empty()
        },
    }
}

/// The whole program around a body: the tape of the configured size and cell
/// type, the pointer at zero, the input where there is any, and the body.
pub open spec fn template_text(config: BrainfuckToRust, body: Seq<char>, needs_input: bool) -> Seq<
    char,
> {
    PROGRAM_HEAD@ + usize_text(config.memory_size as nat) + ";\ntype Cell = "@ + cell_type_text(
        config.cell_size,
    ) + TAPE@ + input_text(config, needs_input) + body + "}\n"@
}

/// What generation gives for a program: its text, or the reason why it has none.
pub open spec fn generated(config: BrainfuckToRust, file: FileView) -> Result<
    Seq<char>,
    GenerateError,
> {
    if has_marker(leaves(file.segments)) {
        Err(GenerateError::MisplacedLoopMarker)
    } else if has_repeated_read(leaves(file.segments)) {
        Err(GenerateError::RepeatedRead)
    } else {
        Ok(template_text(config, body_text(config, file.segments), file.needs_input))
    }
}

/// A marker or a repeated read is in two token sequences in a row just when
/// it is in one of them.
pub proof fn lemma_faults_add(a: Seq<Op>, b: Seq<Op>)
    ensures
        has_marker(a + b) == (has_marker(a) || has_marker(b)),
        has_repeated_read(a + b) == (has_repeated_read(a) || has_repeated_read(b)),
{
    let both = a + b;
    if has_marker(a) {
        let i = choose|i: int| 0 <= i < a.len() && (#[trigger] a[i]).token.is_bracket();
        assert(both[i].token.is_bracket());
    }
    if has_marker(b) {
        let i = choose|i: int| 0 <= i < b.len() && (#[trigger] b[i]).token.is_bracket();
        assert(both[a.len() + i].token.is_bracket());
    }
    if has_marker(both) {
        let i = choose|i: int| 0 <= i < both.len() && (#[trigger] both[i]).token.is_bracket();
        if i < a.len() {
            assert(a[i].token.is_bracket());
        } else {
            assert(b[i - a.len()].token.is_bracket());
        }
    }
    if has_repeated_read(a) {
        let i = choose|i: int|
            0 <= i < a.len() && (#[trigger] a[i]).token == Token::Read && a[i].count > 1;
        assert(both[i].token == Token::Read && both[i].count > 1);
    }
    if has_repeated_read(b) {
        let i = choose|i: int|
            0 <= i < b.len() && (#[trigger] b[i]).token == Token::Read && b[i].count > 1;
        assert(both[a.len() + i].token == Token::Read && both[a.len() + i].count > 1);
    }
    if has_repeated_read(both) {
        let i = choose|i: int|
            0 <= i < both.len() && (#[trigger] both[i]).token == Token::Read && both[i].count > 1;
        if i < a.len() {
            assert(a[i].token == Token::Read && a[i].count > 1);
        } else {
            assert(b[i - a.len()].token == Token::Read && b[i - a.len()].count > 1);
        }
    }
}

/// Three texts in a row.
fn concat3(a: &str, b: &str, c: &str) -> (text: String)
    ensures
        text@ == a@ + b@ + c@,
{
    let mut text = String::from_str(a);
    text.append(b);
    text.append(c);
    text
}

/// Five texts in a row.
fn concat5(a: &str, b: &str, c: &str, d: &str, e: &str) -> (text: String)
    ensures
        text@ == a@ + b@ + c@ + d@ + e@,
{
    let mut text = concat3(a, b, c);
    text.append(d);
    text.append(e);
    text
}

impl BrainfuckToRust {
    /// A configuration with the given tape size and every policy at its default.
    pub fn new(memory_size: usize) -> (config: Self)
        ensures
            config.memory_size == memory_size,
            config.pointer_safety == PointerSafety::Unchecked,
            config.overflow_behavior == OverflowBehavior::Unchecked,
            config.cell_size == CellSize::U8,
            config.fixed_input is None,
            config.eof_behavior == EofBehavior::NoChange,
    {
        BrainfuckToRust {
            memory_size,
            pointer_safety: PointerSafety::default(),
            overflow_behavior: OverflowBehavior::default(),
            cell_size: CellSize::default(),
            fixed_input: None,
            eof_behavior: EofBehavior::default(),
        }
    }

    /// Generates the source text of a program that computes what `file`
    /// does under the policies of this configuration. A read that repeats is
    /// refused, and so is a block that holds a loop marker, before any text is
    /// made.
    pub fn generate<T: TokenExt>(&self, file: File<T>) -> (result: Result<String, GenerateError>)
        ensures
            match result {
                Ok(text) => generated(*self, file@) == Ok::<Seq<char>, GenerateError>(text@),
                Err(error) => generated(*self, file@) == Err::<Seq<char>, GenerateError>(error),
            },
    {
        let (marker, repeated_read) = Self::find_faults(&file.segments);
        if marker {
            return Err(GenerateError::MisplacedLoopMarker);
        }
        if repeated_read {
            return Err(GenerateError::RepeatedRead);
        }
        let body = self.generate_body(&file.segments);

        let full = self.template(body, file.needs_input);

        Ok(full)
    }

    /// Whether a block of the tree holds a loop marker, and whether one holds
    /// a read that repeats.
    fn find_faults<T: TokenExt>(segments: &Vec<Segment<T>>) -> (faults: (bool, bool))
        ensures
            faults.0 == has_marker(leaves(segments_view(segments@))),
            faults.1 == has_repeated_read(leaves(segments_view(segments@))),
        decreases segments,
    {
        let ghost tree = segments_view(segments@);
        let mut marker = false;
        let mut repeated_read = false;
        let mut i: usize = 0;
        proof {
            assert(leaves(tree.take(0)) =~= Seq::<Op>::empty());
        }
        while i < segments.len()
            invariant
                i <= segments.len(),
                tree == segments_view(segments@),
                marker == has_marker(leaves(tree.take(i as int))),
                repeated_read == has_repeated_read(leaves(tree.take(i as int))),
            decreases segments.len() - i,
        {
            let ghost before = leaves(tree.take(i as int));
            proof {
                assert(tree.take(i + 1).drop_last() =~= tree.take(i as int));
                assert(tree.take(i + 1).last() == segments@[i as int]@);
            }
            match &segments[i] {
                Segment::Executable(code) => {
                    let ghost ops = code@;
                    let mut j: usize = 0;
                    let mut block_marker = false;
                    let mut block_read = false;
                    while j < code.tokens.len()
                        invariant
                            j <= code.tokens.len(),
                            ops == code@,
                            block_marker == has_marker(ops.take(j as int)),
                            block_read == has_repeated_read(ops.take(j as int)),
                        decreases code.tokens.len() - j,
                    {
                        let token = code.tokens[j].token();
                        let count = code.tokens[j].count();
                        proof {
                            assert(ops[j as int] == code.tokens@[j as int].op());
                            assert(ops.take(j + 1) =~= ops.take(j as int) + seq![ops[j as int]]);
                            lemma_faults_add(ops.take(j as int), seq![ops[j as int]]);
                            let one = seq![ops[j as int]];
                            assert(has_marker(one) == one[0].token.is_bracket());
                            assert(has_repeated_read(one) == (one[0].token == Token::Read
                                && one[0].count > 1));
                        }
                        if matches!(token, Token::LoopStart | Token::LoopEnd) {
                            block_marker = true;
                        }
                        if matches!(token, Token::Read) && count > 1 {
                            block_read = true;
                        }
                        j += 1;
                    }
                    proof {
                        assert(ops.take(ops.len() as int) =~= ops);
                        lemma_faults_add(before, ops);
                    }
                    marker = marker || block_marker;
                    repeated_read = repeated_read || block_read;
                },
                Segment::Loop(body) => {
                    let (body_marker, body_read) = Self::find_faults(body);
                    proof {
                        lemma_faults_add(before, leaves(segments_view(body@)));
                    }
                    marker = marker || body_marker;
                    repeated_read = repeated_read || body_read;
                },
            }
            i += 1;
        }
        proof {
            assert(tree.take(tree.len() as int) =~= tree);
        }
        (marker, repeated_read)
    }

    /// The text of a segment tree, in pre-order.
    fn generate_body<T: TokenExt>(&self, segments: &Vec<Segment<T>>) -> (text: String)
        ensures
            text@ == body_text(*self, segments_view(segments@)),
        decreases segments,
    {
        let ghost tree = segments_view(segments@);
        let mut blocks = String::new();
        let mut i: usize = 0;
        proof {
            assert(body_text(*self, tree.take(0)) =~= Seq::<char>::empty());
        }
        while i < segments.len()
            invariant
                i <= segments.len(),
                tree == segments_view(segments@),
                blocks@ == body_text(*self, tree.take(i as int)),
            decreases segments.len() - i,
        {
            let ghost before = blocks@;
            proof {
                assert(tree.take(i + 1).drop_last() =~= tree.take(i as int));
                assert(tree.take(i + 1).last() == segments@[i as int]@);
            }
            match &segments[i] {
                Segment::Executable(code) => {
                    let statements = self.generate_statements(code);
                    let ghost ops = code@;
                    let mut j: usize = 0;
                    proof {
                        assert(block_text(*self, ops.take(0)) =~= Seq::<char>::empty());
                        assert(before + Seq::<char>::empty() =~= before);
                    }
                    while j < statements.len()
                        invariant
                            j <= statements.len(),
                            statements.len() == ops.len(),
                            forall|k: int|
                                0 <= k < ops.len() ==> (#[trigger] statements[k])@
                                    == statement_text(*self, ops[k]),
                            blocks@ == before + block_text(*self, ops.take(j as int)),
                        decreases statements.len() - j,
                    {
                        proof {
                            assert(ops.take(j + 1).drop_last() =~= ops.take(j as int));
                            assert(ops.take(j + 1).last() == ops[j as int]);
                            assert(before + block_text(*self, ops.take(j + 1)) =~= before
                                + block_text(*self, ops.take(j as int)) + statements[j as int]@
                                + "\n"@);
                        }
                        blocks.append(statements[j].as_str());
                        blocks.append("\n");
                        j += 1;
                    }
                    proof {
                        assert(ops.take(ops.len() as int) =~= ops);
                    }
                },
                Segment::Loop(inner) => {
                    let body = self.generate_body(inner);
                    proof {
                        assert(body_text(*self, tree.take(i + 1)) =~= before
                            + LOOP_HEAD@ + body@ + "}\n"@);
                    }
                    blocks.append(LOOP_HEAD);
                    blocks.append(body.as_str());
                    blocks.append("}\n");
                },
            }
            i += 1;
        }
        proof {
            assert(tree.take(tree.len() as int) =~= tree);
        }
        blocks
    }

    /// The literal of a count in the type of a cell: the count modulo the
    /// number of the cell's values.
    fn cell_literal(&self, count: usize) -> (text: String)
        ensures
            text@ == cell_text(self.cell_size, count as nat),
    {
        match self.cell_size {
            CellSize::U8 => u8_literal((count % 0x100) as u8),
            CellSize::U16 => u16_literal((count % 0x1_0000) as u16),
            CellSize::U32 => u32_literal((count as u64 % 0x1_0000_0000) as u32),
        }
    }

    /// Whether a count is less than the number of a cell's values.
    fn fits_cell(&self, count: usize) -> (fits: bool)
        ensures
            fits == (count < cell_modulus(self.cell_size)),
    {
        match self.cell_size {
            CellSize::U8 => count < 0x100,
            CellSize::U16 => count < 0x1_0000,
            CellSize::U32 => (count as u64) < 0x1_0000_0000,
        }
    }

    /// One statement for each token of a straight-line block, with the
    /// token's count folded into it.
    fn generate_statements<T: TokenExt>(&self, tokens: &Tokens<T>) -> (statements: Vec<String>)
        ensures
            statements.len() == tokens@.len(),
            forall|i: int|
                0 <= i < tokens@.len() ==> (#[trigger] statements[i])@ == statement_text(
                    *self,
                    tokens@[i],
                ),
    {
        let mut statements: Vec<String> = Vec::new();
        let mut i: usize = 0;
        while i < tokens.tokens.len()
            invariant
                i <= tokens.tokens.len(),
                statements.len() == i,
                forall|k: int|
                    0 <= k < i ==> (#[trigger] statements[k])@ == statement_text(*self, tokens@[k]),
            decreases tokens.tokens.len() - i,
        {
            let token = &tokens.tokens[i];
            assert(tokens@[i as int] == token.op());
            let count = usize_literal(token.count());
            let n = count.as_str();
            let value = self.cell_literal(token.count());
            let v = value.as_str();
            let fits = self.fits_cell(token.count());

            let stmt = match token.token() {
                Token::PointerAdd => match self.pointer_safety {
                    PointerSafety::Wrap => concat3("pointer = (pointer + ", n, ") % MEM_SIZE;"),
                    PointerSafety::Clamp => concat3(
                        "pointer = (pointer + ",
                        n,
                        ").min(MEM_SIZE - 1);",
                    ),
                    PointerSafety::Unchecked => concat3("pointer += ", n, ";"),
                },
                Token::PointerSub => match self.pointer_safety {
                    PointerSafety::Wrap => {
                        let mut stmt = concat5(
                            "pointer = if pointer < ",
                            n,
                            " { MEM_SIZE - (",
                            n,
                            " - pointer) } else { pointer - ",
                        );
                        stmt.append(n);
                        stmt.append(" };");
                        stmt
                    },
                    PointerSafety::Clamp => concat5("pointer = pointer.max(", n, ") - ", n, ";"),
                    PointerSafety::Unchecked => concat3("pointer -= ", n, ";"),
                },
                Token::ValueAdd => match self.overflow_behavior {
                    OverflowBehavior::Unchecked => concat3("tape[pointer] += ", v, ";"),
                    OverflowBehavior::Wrap => concat3(
                        "tape[pointer] = tape[pointer].wrapping_add(",
                        v,
                        ");",
                    ),
                    OverflowBehavior::Abort => if fits {
                        concat3("tape[pointer] = tape[pointer].checked_add(", v, ").unwrap();")
                    } else {
                        String::from_str("panic!(\"cell overflow\");")
                    },
                },
                Token::ValueSub => match self.overflow_behavior {
                    OverflowBehavior::Unchecked => concat3("tape[pointer] -= ", v, ";"),
                    OverflowBehavior::Wrap => concat3(
                        "tape[pointer] = tape[pointer].wrapping_sub(",
                        v,
                        ");",
                    ),
                    OverflowBehavior::Abort => if fits {
                        concat3("tape[pointer] = tape[pointer].checked_sub(", v, ").unwrap();")
                    } else {
                        String::from_str("panic!(\"cell underflow\");")
                    },
                },
                Token::Read => match self.eof_behavior {
                    EofBehavior::NoChange => concat3(READ_HEAD, n, "; }"),
                    EofBehavior::Fixed(ch) => {
                        let lit = byte_literal(ch);
                        concat5(
                            READ_HEAD,
                            n,
                            "; } else { tape[pointer] = Cell::from(",
                            lit.as_str(),
                            "); }",
                        )
                    },
                },
                Token::Write => concat3(WRITE_HEAD, n, " { print!(\"{}\", __c); }"),
                Token::LoopStart => String::new(),
                Token::LoopEnd => String::new(),
            };

            statements.push(stmt);
            i += 1;
        }
        statements
    }

    /// The whole program around a body.
    fn template(&self, body: String, needs_input: bool) -> (text: String)
        ensures
            text@ == template_text(*self, body@, needs_input),
    {
        let mem_size = usize_literal(self.memory_size);
        let cell_type = match self.cell_size {
            CellSize::U8 => "u8",
            CellSize::U16 => "u16",
            CellSize::U32 => "u32",
        };

        let input_def = if let Some(fixed_input) = &self.fixed_input {
            let fixed = string_literal(fixed_input.as_str());
            concat3(FIXED_INPUT_HEAD, fixed.as_str(), FIXED_INPUT_TAIL)
        } else if needs_input {
            String::from_str(STDIN_INPUT)
        } else {
            String::new()
        };

        let mut text = concat5(
            PROGRAM_HEAD,
            mem_size.as_str(),
            ";\ntype Cell = ",
            cell_type,
            TAPE,
        );
        text.append(input_def.as_str());
        text.append(body.as_str());
        text.append("}\n");
        text
    }
}

} // verus!
