//! A direct interpreter: an instruction pointer over the characters of the
//! source text, and a stack of the loops that are open.

use ascii::ToAsciiChar;
use vstd::prelude::*;
use crate::input::{AsciiText, InputEncodingError};

verus! {

/// The number of cells of the tape.
pub const MEMORY_SIZE: usize = 30_000;

/// The last cell of the tape.
pub const MAX_POINTER: usize = MEMORY_SIZE - 1;

/// Why the interpreter cannot go on.
#[derive(Debug, Clone, Copy, PartialEq, Eq, Structural)]
pub enum InterpreterError {
    /// A loop end asks to go round a loop that was never opened.
    UnmatchedLoopEnd,
    /// The cell to write holds no ASCII character.
    OutputNotAscii,
}

/// Whether there is more of the program to run.
#[derive(Debug, Clone, Copy, PartialEq, Eq, Structural)]
pub enum Status {
    Running,
    Finished,
}

/// The state of the interpreter.
#[derive(Debug)]
pub struct BrainfuckInterpreter {
    pub memory: Vec<u8>,
    pub pointer: usize,
    pub loop_stack: Vec<usize>,
    pub input: AsciiText,
    pub input_pos: usize,
    pub code: Vec<char>,
    pub code_pos: usize,
    pub output: String,
}

/// The state of the interpreter, as the contracts speak of it.
pub struct Machine {
    pub memory: Seq<u8>,
    pub pointer: int,
    pub loop_stack: Seq<usize>,
    pub input: Seq<u8>,
    pub input_pos: int,
    pub code: Seq<char>,
    pub code_pos: int,
    pub output: Seq<char>,
}

/// The position behind the loop whose body starts at `from`, where
/// `depth` more loops are open around `from`: behind the loop end that closes
/// it, or the end of the program where nothing does.
pub open spec fn loop_exit(code: Seq<char>, from: int, depth: nat) -> int
    decreases code.len() - from,
{
    if from < 0 || from >= code.len() {
        code.len() as int
    } else if code[from] == '[' {
        loop_exit(code, from + 1, depth + 1)
    } else if code[from] == ']' {
        if depth == 0 {
            from + 1
        } else {
            loop_exit(code, from + 1, (depth - 1) as nat)
        }
    } else {
        loop_exit(code, from + 1, depth)
    }
}

impl Machine {
    /// The tape has its size, and the pointer and the place in the input are within bounds.
    pub open spec fn well_formed(self) -> bool {
        &&& self.memory.len() == MEMORY_SIZE
        &&& 0 <= self.pointer < MEMORY_SIZE
        &&& 0 <= self.input_pos <= self.input.len()
        &&& 0 <= self.code_pos
    }

    /// Whether the instruction pointer is behind the program.
    pub open spec fn finished(self) -> bool {
        self.code_pos >= self.code.len()
    }

    /// The cell under the pointer.
    pub open spec fn cell(self) -> u8 {
        self.memory[self.pointer]
    }

    /// This state with another value in the cell under the pointer.
    pub open spec fn with_cell(self, value: u8) -> Machine {
        Machine { memory: self.memory.update(self.pointer, value), ..self }
    }

    /// This state with the instruction pointer one further.
    pub open spec fn advanced(self) -> Machine {
        Machine { code_pos: self.code_pos + 1, ..self }
    }

    /// The state after the instruction under the instruction pointer, or why
    /// it cannot run. The pointer stops at both ends of the tape, cells wrap
    /// around, and a read at the end of the input leaves the cell as it is. A
    /// loop start on a cell that is zero goes on behind the loop; on any other
    /// cell it notes where the body begins, and the loop end goes back there
    /// while the cell is not zero.
    pub open spec fn step(self) -> Result<Machine, InterpreterError> {
        if self.finished() {
            Ok(self)
        } else {
            let c = self.code[self.code_pos];
            if c == '>' {
                Ok(
                    Machine {
                        pointer: if self.pointer < MAX_POINTER {
                            self.pointer + 1
                        } else {
                            MAX_POINTER as int
                        },
                        ..self.advanced()
                    },
                )
            } else if c == '<' {
                Ok(
                    Machine {
                        pointer: if self.pointer > 0 {
                            self.pointer - 1
                        } else {
                            0
                        },
                        ..self.advanced()
                    },
                )
            } else if c == '+' {
                Ok(
                    self.with_cell(
                        if self.cell() == u8::MAX {
                            0u8
                        } else {
                            (self.cell() + 1) as u8
                        },
                    ).advanced(),
                )
            } else if c == '-' {
                Ok(
                    self.with_cell(
                        if self.cell() == 0 {
                            u8::MAX
                        } else {
                            (self.cell() - 1) as u8
                        },
                    ).advanced(),
                )
            } else if c == '.' {
                if self.cell() <= 0x7f {
                    Ok(Machine { output: self.output.push(self.cell() as char), ..self.advanced() })
                } else {
                    Err(InterpreterError::OutputNotAscii)
                }
            } else if c == ',' {
                if self.input_pos < self.input.len() {
                    Ok(
                        Machine {
                            input_pos: self.input_pos + 1,
                            ..self.with_cell(self.input[self.input_pos]).advanced()
                        },
                    )
                } else {
                    Ok(self.advanced())
                }
            } else if c == '[' {
                if self.cell() == 0 {
                    Ok(Machine { code_pos: loop_exit(self.code, self.code_pos + 1, 0), ..self })
                } else {
                    Ok(
                        Machine {
                            loop_stack: self.loop_stack.push((self.code_pos + 1) as usize),
                            ..self.advanced()
                        },
                    )
                }
            } else if c == ']' {
                if self.cell() != 0 {
                    if self.loop_stack.len() > 0 {
                        Ok(Machine { code_pos: self.loop_stack.last() as int, ..self })
                    } else {
                        Err(InterpreterError::UnmatchedLoopEnd)
                    }
                } else if self.loop_stack.len() > 0 {
                    Ok(Machine { loop_stack: self.loop_stack.drop_last(), ..self.advanced() })
                } else {
                    Ok(self.advanced())
                }
            } else {
                Ok(self.advanced())
            }
        }
    }

    /// The state after at most `limit` instructions, and why the run stopped
    /// early if an instruction could not run: the state is then the one before
    /// that instruction.
    pub open spec fn run(self, limit: nat) -> (Machine, Option<InterpreterError>)
        decreases limit,
    {
        if limit == 0 || self.finished() {
            (self, None)
        } else {
            match self.step() {
                Ok(next) => next.run((limit - 1) as nat),
                Err(error) => (self, Some(error)),
            }
        }
    }
}

/// `ascii::ToAsciiChar::to_ascii_char` on a byte, and `AsciiChar::as_char`: the
/// character with that code where the byte is in the ASCII range, else nothing.
#[verifier::external_body]
fn ascii_char(byte: u8) -> (c: Option<char>)
    ensures
        c == (if byte <= 0x7f {
            Some(byte as char)
        } else {
            None
        }),
{
    match byte.to_ascii_char() {
        Ok(found) => Some(found.as_char()),
        Err(_) => None,
    }
}

/// `String::push`: the text with one more character at its end.
#[verifier::external_body]
fn push_char(text: &mut String, c: char)
    ensures
        final(text)@ == old(text)@.push(c),
{
    text.push(c);
}

impl View for BrainfuckInterpreter {
    type V = Machine;

    open spec fn view(&self) -> Machine {
        Machine {
            memory: self.memory@,
            pointer: self.pointer as int,
            loop_stack: self.loop_stack@,
            input: self.input.codes(),
            input_pos: self.input_pos as int,
            code: self.code@,
            code_pos: self.code_pos as int,
            output: self.output@,
        }
    }
}

impl BrainfuckInterpreter {
    /// An interpreter at the start of `code`, with a tape of zeros and the
    /// given input, or none. Input that is not ASCII is refused.
    pub fn new(code: &str, input: Option<&String>) -> (result: Result<Self, InputEncodingError>)
        ensures
            match result {
                Ok(interpreter) => {
                    let text = if let Some(given) = input {
                        given@
                    } else {
                        Seq::<char>::empty()
                    };
                    &&& crate::input::all_ascii(text)
                    &&& interpreter.input@ == text
                    &&& interpreter@.well_formed()
                    &&& interpreter@.memory == Seq::new(MEMORY_SIZE as nat, |i: int| 0u8)
                    &&& interpreter@.pointer == 0
                    &&& interpreter@.loop_stack.len() == 0
                    &&& interpreter@.input_pos == 0
                    &&& interpreter@.code == code@
                    &&& interpreter@.code_pos == 0
                    &&& interpreter@.output.len() == 0
                },
                Err(error) => input matches Some(given) && crate::input::first_non_ascii(
                    given@,
                    error.valid_up_to as int,
                ),
            },
    {
        broadcast use vstd::string::group_string_axioms;

        let parsed = match input {
            Some(given) => AsciiText::new(given.as_str()),
            None => {
                proof {
                    reveal_strlit("");
                }
                AsciiText::new("")
            },
        };
        let input = match parsed {
            Ok(input) => input,
            Err(error) => {
                return Err(error);
            },
        };
        let memory: Vec<u8> = vec![0u8; MEMORY_SIZE];
        let mut chars: Vec<char> = Vec::new();
        for c in it: code.chars()
            invariant
                it.seq() == code@,
                chars@ == code@.take(it.index()),
        {
            proof {
                assert(code@.take(it.index() + 1) =~= code@.take(it.index()).push(c));
            }
            chars.push(c);
        }
        proof {
            assert(code@.take(code@.len() as int) =~= code@);
            assert(memory@ =~= Seq::new(MEMORY_SIZE as nat, |i: int| 0u8));
        }
        Ok(
            Self {
                memory,
                pointer: 0,
                loop_stack: Vec::new(),
                input,
                input_pos: 0,
                code: chars,
                code_pos: 0,
                output: String::new(),
            },
        )
    }

    /// Whether the instruction pointer is behind the program.
    pub fn status(&self) -> (status: Status)
        ensures
            status == (if self@.finished() {
                Status::Finished
            } else {
                Status::Running
            }),
    {
        if self.code_pos >= self.code.len() {
            Status::Finished
        } else {
            Status::Running
        }
    }

    /// The position behind the loop that starts under the instruction pointer.
    fn skip_loop(&self) -> (exit: usize)
        requires
            self.code_pos < self.code.len(),
        ensures
            exit == loop_exit(self.code@, self.code_pos + 1, 0),
    {
        let mut pos: usize = self.code_pos + 1;
        let mut depth: usize = 0;
        while pos < self.code.len()
            invariant
                self.code_pos < pos <= self.code.len(),
                depth < pos,
                loop_exit(self.code@, self.code_pos + 1, 0) == loop_exit(
                    self.code@,
                    pos as int,
                    depth as nat,
                ),
            decreases self.code.len() - pos,
        {
            let c = self.code[pos];
            if c == '[' {
                depth += 1;
            } else if c == ']' {
                if depth == 0 {
                    return pos + 1;
                }
                depth -= 1;
            }
            pos += 1;
        }
        pos
    }

    /// Runs the instruction under the instruction pointer. Where it cannot
    /// run, the state stays as it is.
    pub fn step(&mut self) -> (result: Result<Status, InterpreterError>)
        requires
            old(self)@.well_formed(),
        ensures
            final(self)@.well_formed(),
            match result {
                Ok(status) => old(self)@.step() == Ok::<Machine, InterpreterError>(final(self)@)
                    && status == (if final(self)@.finished() {
                    Status::Finished
                } else {
                    Status::Running
                }),
                Err(error) => old(self)@.step() == Err::<Machine, InterpreterError>(error)
                    && final(self)@ == old(self)@,
            },
    {
        if self.code_pos >= self.code.len() {
            return Ok(Status::Finished);
        }
        let c = self.code[self.code_pos];

        let mut increment = true;

        match c {
            '>' => {
                self.pointer += 1;
                self.pointer = if self.pointer < MAX_POINTER {
                    self.pointer
                } else {
                    MAX_POINTER
                };
            },
            '<' => {
                if self.pointer > 0 {
                    self.pointer -= 1;
                }
            },
            '+' => {
                let value = self.memory[self.pointer].wrapping_add(1);
                self.memory.set(self.pointer, value);
            },
            '-' => {
                let value = self.memory[self.pointer].wrapping_sub(1);
                self.memory.set(self.pointer, value);
            },
            '.' => {
                match ascii_char(self.memory[self.pointer]) {
                    Some(out) => {
                        push_char(&mut self.output, out);
                    },
                    None => {
                        return Err(InterpreterError::OutputNotAscii);
                    },
                }
            },
            ',' => {
                if self.input_pos < self.input.len() {
                    let value = self.input.byte(self.input_pos);
                    self.memory.set(self.pointer, value);
                    self.input_pos += 1;
                }
                // if there is no next char, do not clobber the current pointer

            },
            '[' => {
                if self.memory[self.pointer] == 0 {
                    self.code_pos = self.skip_loop();
                    increment = false;
                } else {
                    self.loop_stack.push(self.code_pos + 1);
                }
            },
            ']' => {
                if self.memory[self.pointer] != 0 {
                    if self.loop_stack.len() == 0 {
                        return Err(InterpreterError::UnmatchedLoopEnd);
                    }
                    self.code_pos = self.loop_stack[self.loop_stack.len() - 1];
                    increment = false;
                } else {
                    self.loop_stack.pop();
                }
            },
            _ => {},
        }

        if increment {
            self.code_pos += 1;
        }
        Ok(self.status())
    }

    /// Runs the program from where it stands, for at most `limit`
    /// instructions. Stops early where the program is finished, or where an
    /// instruction cannot run.
    pub fn run(&mut self, limit: usize) -> (result: Result<Status, InterpreterError>)
        requires
            old(self)@.well_formed(),
        ensures
            final(self)@.well_formed(),
            old(self)@.run(limit as nat).0 == final(self)@,
            match result {
                Ok(status) => old(self)@.run(limit as nat).1 is None && status == (if final(self)@.finished() {
                    Status::Finished
                } else {
                    Status::Running
                }),
                Err(error) => old(self)@.run(limit as nat).1 == Some(error),
            },
    {
        let mut done: usize = 0;
        while done < limit && self.code_pos < self.code.len()
            invariant
                done <= limit,
                self@.well_formed(),
                old(self)@.run(limit as nat) == self@.run((limit - done) as nat),
            decreases limit - done,
        {
            match self.step() {
                Ok(_) => {},
                Err(error) => {
                    return Err(error);
                },
            }
            done += 1;
        }
        Ok(self.status())
    }
}

} // verus!
