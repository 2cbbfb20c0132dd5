//! Runs generated programs statement by statement and holds what they do
//! against the interpreter and against the documented policies.

use brainfuck::ast::{File, Repeated};
use brainfuck::generator::{
    BrainfuckToRust, CellSize, EofBehavior, OverflowBehavior, PointerSafety,
};
use brainfuck::input::AsciiText;
use brainfuck::interpreter::{BrainfuckInterpreter, Status, MEMORY_SIZE};

/// Why a generated program stopped before its end.
#[derive(Debug, PartialEq, Eq)]
enum Halt {
    /// A panic that the program asks for: `unwrap` on `None`, or `panic!`.
    Abort,
    /// Arithmetic overflow or an index out of bounds in unchecked code.
    Overflow,
    /// The limit on the number of statements was reached.
    Limit,
}

struct Vm {
    tape: Vec<u64>,
    cell_max: u64,
    pointer: usize,
    input: Vec<u8>,
    input_pos: usize,
    output: String,
    steps: usize,
}

fn number(text: &str, suffix: &str) -> u64 {
    text.strip_suffix(suffix).unwrap_or_else(|| panic!("{text} has no suffix {suffix}")).parse().unwrap()
}

fn between<'a>(line: &'a str, before: &str, after: &str) -> Option<&'a str> {
    line.strip_prefix(before)?.strip_suffix(after)
}

impl Vm {
    fn cell(&mut self) -> Result<&mut u64, Halt> {
        self.tape.get_mut(self.pointer).ok_or(Halt::Overflow)
    }

    fn read(&mut self, count: &str, at_end: Option<u8>) -> Result<(), Halt> {
        let count = number(count, "usize") as usize;
        if let Some(byte) = self.input.get(self.input_pos).copied() {
            *self.cell()? = u64::from(byte);
            self.input_pos += count;
        } else if let Some(byte) = at_end {
            *self.cell()? = u64::from(byte);
        }
        Ok(())
    }

    fn statement(&mut self, line: &str, cell: &str) -> Result<(), Halt> {
        let size = self.tape.len();
        let max = self.cell_max;
        if let Some(n) = between(line, "pointer = (pointer + ", ") % MEM_SIZE;") {
            let n = number(n, "usize") as usize;
            self.pointer = self.pointer.checked_add(n).ok_or(Halt::Overflow)? % size;
        } else if let Some(n) = between(line, "pointer = (pointer + ", ").min(MEM_SIZE - 1);") {
            let n = number(n, "usize") as usize;
            self.pointer = self.pointer.checked_add(n).ok_or(Halt::Overflow)?.min(size - 1);
        } else if let Some(n) = between(line, "pointer += ", ";") {
            let n = number(n, "usize") as usize;
            self.pointer = self.pointer.checked_add(n).ok_or(Halt::Overflow)?;
        } else if let Some(rest) = between(line, "pointer = if pointer < ", " };") {
            let n = number(rest.split(' ').next().unwrap(), "usize") as usize;
            assert_eq!(
                rest,
                format!("{n}usize {{ MEM_SIZE - ({n}usize - pointer) }} else {{ pointer - {n}usize")
            );
            self.pointer = if self.pointer < n {
                size.checked_sub(n - self.pointer).ok_or(Halt::Overflow)?
            } else {
                self.pointer - n
            };
        } else if let Some(rest) = between(line, "pointer = pointer.max(", ";") {
            let n = number(rest.split(')').next().unwrap(), "usize") as usize;
            assert_eq!(rest, format!("{n}usize) - {n}usize"));
            self.pointer = self.pointer.max(n) - n;
        } else if let Some(n) = between(line, "pointer -= ", ";") {
            let n = number(n, "usize") as usize;
            self.pointer = self.pointer.checked_sub(n).ok_or(Halt::Overflow)?;
        } else if let Some(v) = between(line, "tape[pointer] += ", ";") {
            let v = number(v, cell);
            let sum = *self.cell()? + v;
            if sum > max {
                return Err(Halt::Overflow);
            }
            *self.cell()? = sum;
        } else if let Some(v) = between(line, "tape[pointer] -= ", ";") {
            let v = number(v, cell);
            let value = *self.cell()?;
            *self.cell()? = value.checked_sub(v).ok_or(Halt::Overflow)?;
        } else if let Some(v) = between(line, "tape[pointer] = tape[pointer].wrapping_add(", ");") {
            let v = number(v, cell);
            let value = *self.cell()?;
            *self.cell()? = (value + v) % (max + 1);
        } else if let Some(v) = between(line, "tape[pointer] = tape[pointer].wrapping_sub(", ");") {
            let v = number(v, cell);
            let value = *self.cell()?;
            *self.cell()? = (value + max + 1 - v) % (max + 1);
        } else if let Some(v) =
            between(line, "tape[pointer] = tape[pointer].checked_add(", ").unwrap();")
        {
            let v = number(v, cell);
            let sum = *self.cell()? + v;
            if sum > max {
                return Err(Halt::Abort);
            }
            *self.cell()? = sum;
        } else if let Some(v) =
            between(line, "tape[pointer] = tape[pointer].checked_sub(", ").unwrap();")
        {
            let v = number(v, cell);
            let value = *self.cell()?;
            *self.cell()? = value.checked_sub(v).ok_or(Halt::Abort)?;
        } else if line == "panic!(\"cell overflow\");" || line == "panic!(\"cell underflow\");" {
            return Err(Halt::Abort);
        } else if let Some(rest) = between(
            line,
            "if let Some(_c) = input.get(input_pos) { tape[pointer] = Cell::from(_c.as_byte()); input_pos += ",
            "; }",
        ) {
            match rest.split_once("; } else { tape[pointer] = Cell::from(") {
                None => self.read(rest, None)?,
                Some((count, literal)) => {
                    let literal = literal.strip_suffix(")").unwrap();
                    let byte = syn::parse_str::<syn::LitByte>(literal).unwrap().value();
                    self.read(count, Some(byte))?;
                }
            }
        } else if let Some(n) = between(
            line,
            "let __c = tape[pointer].to_ascii_char().unwrap().as_char(); for _ in 0..",
            " { print!(\"{}\", __c); }",
        ) {
            let n = number(n, "usize");
            let value = *self.cell()?;
            if value > 0x7f {
                return Err(Halt::Abort);
            }
            for _ in 0..n {
                self.output.push(value as u8 as char);
            }
        } else {
            panic!("a statement of no known form: {line}");
        }
        Ok(())
    }

    fn block(&mut self, lines: &[&str], cell: &str) -> Result<(), Halt> {
        let mut at: usize = 0;
        while at < lines.len() {
            self.steps += 1;
            if self.steps > 100_000 {
                return Err(Halt::Limit);
            }
            if lines[at] == "while tape[pointer] != 0 {" {
                let mut depth: usize = 0;
                let mut end: usize = at + 1;
                loop {
                    if lines[end] == "while tape[pointer] != 0 {" {
                        depth += 1;
                    } else if lines[end] == "}" {
                        if depth == 0 {
                            break;
                        }
                        depth -= 1;
                    }
                    end += 1;
                }
                while *self.cell()? != 0 {
                    self.steps += 1;
                    if self.steps > 100_000 {
                        return Err(Halt::Limit);
                    }
                    self.block(&lines[at + 1..end], cell)?;
                }
                at = end + 1;
            } else {
                self.statement(lines[at], cell)?;
                at += 1;
            }
        }
        Ok(())
    }
}

/// Runs a generated program on the given input, from the given state of the
/// first cells and the pointer.
fn execute(text: &str, input: &str, cells: &[u64], pointer: usize) -> (Vm, Result<(), Halt>) {
    let lines: Vec<&str> = text.lines().collect();
    assert_eq!(&lines[..3], &["use ascii::ToAsciiChar;", "", "fn main() {"]);
    let size = number(between(lines[3], "const MEM_SIZE: usize = ", ";").unwrap(), "usize");
    let cell = between(lines[4], "type Cell = ", ";").unwrap();
    assert_eq!(lines[5], "let mut pointer = 0usize;");
    assert_eq!(lines[6], "let mut tape: [Cell; MEM_SIZE] = [0; MEM_SIZE];");
    assert_eq!(lines[lines.len() - 1], "}");
    let start = match lines.iter().position(|line| *line == "let mut input_pos = 0usize;") {
        Some(at) => at + 1,
        None => 7,
    };
    let cell_max = match cell {
        "u8" => u64::from(u8::MAX),
        "u16" => u64::from(u16::MAX),
        "u32" => u64::from(u32::MAX),
        other => panic!("no cell type: {other}"),
    };
    let mut vm = Vm {
        tape: vec![0; size as usize],
        cell_max,
        pointer,
        input: input.as_bytes().to_vec(),
        input_pos: 0,
        output: String::new(),
        steps: 0,
    };
    vm.tape[..cells.len()].copy_from_slice(cells);
    let result = vm.block(&lines[start..lines.len() - 1], cell);
    (vm, result)
}

fn reference() -> BrainfuckToRust {
    BrainfuckToRust::new(MEMORY_SIZE)
}

fn generate(config: &BrainfuckToRust, source: &str) -> String {
    config.generate(File::<Repeated>::from_str(source).unwrap()).unwrap()
}

/// Interprets `source` and runs the program generated from it, both from a
/// first cell of value `first`, and gives the output and the tape of both.
fn both(source: &str, input: &str, first: u8) -> (String, Vec<u8>) {
    let given = input.to_string();
    let mut interpreter = BrainfuckInterpreter::new(source, Some(&given)).unwrap();
    interpreter.memory[0] = first;
    assert_eq!(interpreter.run(1_000_000), Ok(Status::Finished));

    let mut config = reference();
    config.fixed_input = Some(AsciiText::new(input).unwrap());
    for text in [generate(&reference(), source), generate(&config, source)] {
        let (vm, result) = execute(&text, input, &[u64::from(first)], 0);
        assert_eq!(result, Ok(()));
        assert_eq!(vm.output, interpreter.output);
        let tape: Vec<u8> = vm.tape.iter().map(|cell| *cell as u8).collect();
        assert_eq!(tape, interpreter.memory);
        assert_eq!(vm.pointer, interpreter.pointer);
        assert_eq!(vm.input_pos, interpreter.input_pos);
    }
    (interpreter.output, interpreter.memory)
}

#[test]
fn generated_add_and_print_agrees_with_the_interpreter() {
    let (output, _) = both("+++.", "", 0);
    assert_eq!(output, "\u{3}");
}

#[test]
fn generated_echo_agrees_with_the_interpreter() {
    let (output, tape) = both(",.", "A", 0);
    assert_eq!(output, "A");
    assert_eq!(tape[0], b'A');
    let (output, tape) = both(",.", "", 7);
    assert_eq!(output, "\u{7}");
    assert_eq!(tape[0], 7);
}

#[test]
fn generated_clear_loop_agrees_with_the_interpreter() {
    for first in [0u8, 1, 255] {
        let (output, tape) = both("[-]", "", first);
        assert_eq!(output, "");
        assert_eq!(tape[0], 0);
    }
}

#[test]
fn generated_multiplication_agrees_with_the_interpreter() {
    let (output, tape) = both("+++[>+++<-]>.", "", 0);
    assert_eq!(output, "\u{9}");
    assert_eq!(tape[1], 9);
}

#[test]
fn generated_empty_loop_agrees_with_the_interpreter() {
    // On a zero cell the loop ends at once.
    let (output, _) = both("[]+.", "", 0);
    assert_eq!(output, "\u{1}");
    // A cell that the code before the loop has zeroed ends it too.
    let (output, tape) = both("+++[-][]++.", "", 0);
    assert_eq!(output, "\u{2}");
    assert_eq!(tape[0], 2);
    // On a cell that is not zero both go round for ever.
    let mut interpreter = BrainfuckInterpreter::new("+[]", None).unwrap();
    assert_eq!(interpreter.run(10_000), Ok(Status::Running));
    let (_, result) = execute(&generate(&reference(), "+[]"), "", &[], 0);
    assert_eq!(result, Err(Halt::Limit));
}

#[test]
fn generated_programs_agree_with_the_interpreter() {
    let hello = "++++++++[>++++[>++>+++>+++>+<<<<-]>+>+>->>+[<]<-]>>.>---.+++++++..+++.>>.<-.<.+++.------.--------.>>+.>++.";
    let (output, _) = both(hello, "", 0);
    assert_eq!(output, "Hello World!\n");
    let (output, _) = both(",[.,]", "echo this\0", 0);
    assert_eq!(output, "echo this");
    let (output, _) = both(",>,<[->+<]>.", "\u{20}\u{21}", 0);
    assert_eq!(output, "A");
    let (output, _) = both("[.]", "", 0);
    assert_eq!(output, "");
    let (output, tape) = both(">>>+[<]>+.", "", 5);
    assert_eq!(output, "\u{2}");
    assert_eq!(&tape[..4], &[5, 0, 0, 2]);
}

fn config(pointer: PointerSafety, cell: OverflowBehavior, eof: EofBehavior) -> BrainfuckToRust {
    let mut config = BrainfuckToRust::new(4);
    config.pointer_safety = pointer;
    config.overflow_behavior = cell;
    config.eof_behavior = eof;
    config
}

#[test]
fn policies_at_the_boundaries() {
    let pointers = [PointerSafety::Wrap, PointerSafety::Clamp, PointerSafety::Unchecked];
    let cells = [OverflowBehavior::Wrap, OverflowBehavior::Abort, OverflowBehavior::Unchecked];
    let eofs = [EofBehavior::NoChange, EofBehavior::Fixed(0), EofBehavior::Fixed(b'~')];
    let mut seen: usize = 0;
    for pointer in pointers {
        for cell in cells {
            for eof in eofs {
                let config = config(pointer, cell, eof);
                seen += 1;

                // The pointer at the last cell, moved right.
                let (vm, result) = execute(&generate(&config, ">"), "", &[], 3);
                match pointer {
                    PointerSafety::Wrap => assert_eq!((vm.pointer, result), (0, Ok(()))),
                    PointerSafety::Clamp => assert_eq!((vm.pointer, result), (3, Ok(()))),
                    PointerSafety::Unchecked => assert_eq!((vm.pointer, result), (4, Ok(()))),
                }
                // Behind the tape a cell cannot be used.
                if pointer == PointerSafety::Unchecked {
                    let (_, result) = execute(&generate(&config, ">."), "", &[], 3);
                    assert_eq!(result, Err(Halt::Overflow));
                }

                // The pointer at the first cell, moved left.
                let (vm, result) = execute(&generate(&config, "<"), "", &[], 0);
                match pointer {
                    PointerSafety::Wrap => assert_eq!((vm.pointer, result), (3, Ok(()))),
                    PointerSafety::Clamp => assert_eq!((vm.pointer, result), (0, Ok(()))),
                    PointerSafety::Unchecked => assert_eq!(result, Err(Halt::Overflow)),
                }

                // Moves that stay inside the tape are the same under every policy.
                let (vm, result) = execute(&generate(&config, ">>><<"), "", &[], 0);
                assert_eq!((vm.pointer, result), (1, Ok(())));

                // A cell at zero, decremented.
                let (vm, result) = execute(&generate(&config, "-"), "", &[0], 0);
                match cell {
                    OverflowBehavior::Wrap => assert_eq!((vm.tape[0], result), (255, Ok(()))),
                    OverflowBehavior::Abort => assert_eq!(result, Err(Halt::Abort)),
                    OverflowBehavior::Unchecked => assert_eq!(result, Err(Halt::Overflow)),
                }

                // A cell at its greatest value, incremented.
                let (vm, result) = execute(&generate(&config, "+"), "", &[255], 0);
                match cell {
                    OverflowBehavior::Wrap => assert_eq!((vm.tape[0], result), (0, Ok(()))),
                    OverflowBehavior::Abort => assert_eq!(result, Err(Halt::Abort)),
                    OverflowBehavior::Unchecked => assert_eq!(result, Err(Halt::Overflow)),
                }

                // Cells away from the ends are the same under every policy.
                let (vm, result) = execute(&generate(&config, "+++--"), "", &[100], 0);
                assert_eq!((vm.tape[0], result), (101, Ok(())));

                // A read behind the end of the input.
                let (vm, result) = execute(&generate(&config, ",>,"), "x", &[1, 2], 0);
                assert_eq!(result, Ok(()));
                assert_eq!(vm.tape[0], u64::from(b'x'));
                assert_eq!(vm.input_pos, 1);
                match eof {
                    EofBehavior::NoChange => assert_eq!(vm.tape[1], 2),
                    EofBehavior::Fixed(byte) => assert_eq!(vm.tape[1], u64::from(byte)),
                }
            }
        }
    }
    assert_eq!(seen, 27);
}

#[test]
fn folded_counts_do_what_single_steps_do() {
    let pointers = [PointerSafety::Wrap, PointerSafety::Clamp];
    for pointer in pointers {
        let config = config(pointer, OverflowBehavior::Wrap, EofBehavior::NoChange);
        for (source, start) in [(">>>", 2usize), ("<<<", 1), (">>>>", 0), ("<<<<", 3)] {
            let folded = generate(&config, source);
            let (folded, result) = execute(&folded, "", &[], start);
            assert_eq!(result, Ok(()));
            let single = config
                .generate(File::<brainfuck::ast::Token>::from_str(source).unwrap())
                .unwrap();
            let (single, result) = execute(&single, "", &[], start);
            assert_eq!(result, Ok(()));
            assert_eq!(folded.pointer, single.pointer);
        }
    }
    let config = config(PointerSafety::Clamp, OverflowBehavior::Wrap, EofBehavior::NoChange);
    let source = "+".repeat(300);
    let (folded, result) = execute(&generate(&config, &source), "", &[250], 0);
    assert_eq!((folded.tape[0], result), (38, Ok(())));
    let source = "-".repeat(300);
    let (folded, result) = execute(&generate(&config, &source), "", &[5], 0);
    assert_eq!((folded.tape[0], result), (217, Ok(())));
}

#[test]
fn abort_on_overflow_is_the_generated_program_s() {
    let config = config(PointerSafety::Clamp, OverflowBehavior::Abort, EofBehavior::NoChange);
    let (vm, result) = execute(&generate(&config, "+++++"), "", &[250], 0);
    assert_eq!((vm.tape[0], result), (255, Ok(())));
    let (_, result) = execute(&generate(&config, "++++++"), "", &[250], 0);
    assert_eq!(result, Err(Halt::Abort));
    let (_, result) = execute(&generate(&config, &"+".repeat(256)), "", &[0], 0);
    assert_eq!(result, Err(Halt::Abort));
    let (vm, result) = execute(&generate(&config, "---"), "", &[3], 0);
    assert_eq!((vm.tape[0], result), (0, Ok(())));
    let (_, result) = execute(&generate(&config, "----"), "", &[3], 0);
    assert_eq!(result, Err(Halt::Abort));
}

#[test]
fn wider_cells_hold_more() {
    let mut config = config(PointerSafety::Clamp, OverflowBehavior::Abort, EofBehavior::Fixed(9));
    config.cell_size = CellSize::U16;
    let (vm, result) = execute(&generate(&config, &"+".repeat(300)), "", &[65_000], 0);
    assert_eq!((vm.tape[0], result), (65_300, Ok(())));
    let (_, result) = execute(&generate(&config, &"+".repeat(300)), "", &[65_500], 0);
    assert_eq!(result, Err(Halt::Abort));
    config.cell_size = CellSize::U32;
    config.overflow_behavior = OverflowBehavior::Wrap;
    let (vm, result) = execute(&generate(&config, "-,"), "", &[0], 0);
    assert_eq!((vm.tape[0], result), (9, Ok(())));
    let (vm, result) = execute(&generate(&config, "-"), "", &[0], 0);
    assert_eq!((vm.tape[0], result), (u64::from(u32::MAX), Ok(())));
}
