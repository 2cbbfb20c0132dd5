//! The decisions of the stepping debugger: what part of a buffer to show,
//! when to draw, and what a key means. Drawing and reading keys are the
//! caller's.

use vstd::prelude::*;
use crate::interpreter::MEMORY_SIZE;

verus! {

/// The part of a buffer to display, and where in it the cursor stands.
#[derive(Debug, Clone, Copy, PartialEq, Eq, Structural)]
pub struct Bounds {
    pub start: usize,
    pub end: usize,
    pub rel: u16,
}

/// What the debugger asks of the interpreter.
#[derive(Debug, Clone, Copy, PartialEq, Eq, Structural)]
pub enum DebugCommand {
    Quit,
    Step,
}

/// A key of the keyboard, as far as the debugger tells keys apart.
#[derive(Debug, Clone, Copy, PartialEq, Eq, Structural)]
pub enum Key {
    Char(char),
    Left,
    Right,
    Up,
    Down,
    Other,
}

/// The cells of the tape that are on display: from `start` up to `end`.
#[derive(Debug, Clone, Copy, PartialEq, Eq, Structural)]
pub struct MemoryRange {
    pub start: usize,
    pub end: usize,
}

/// The state of the debugger.
#[derive(Debug, Clone, Copy, PartialEq, Eq)]
pub struct Debugger {
    pub paused: bool,
    pub size: (u16, u16),
    pub op_counter: usize,
    pub last_ops_per_second: usize,
    pub memory_range: MemoryRange,
    pub update_frequency: usize,
    pub update_counter: usize,
}

/// The start of the region that shows position `pos` in a display `width`
/// characters wide: half a width before the cursor, or the start of the buffer.
pub open spec fn region_start(width: u16, pos: usize) -> int {
    if pos >= width / 2 {
        pos - width / 2
    } else {
        0
    }
}

/// The region that shows position `pos` of a buffer: it starts at
/// `region_start`, is half a width long and ends with the buffer at the latest.
pub open spec fn region(width: u16, buf_len: usize, pos: usize) -> Bounds {
    let start = region_start(width, pos);
    Bounds {
        start: start as usize,
        end: (if start + width / 2 <= buf_len {
            start + width / 2
        } else {
            buf_len as int
        }) as usize,
        rel: (pos - start) as u16,
    }
}

/// Twice the number, or the greatest number where twice does not fit.
pub open spec fn doubled(n: usize) -> usize {
    if 2 * n <= usize::MAX {
        (2 * n) as usize
    } else {
        usize::MAX
    }
}

/// Twice the number, saturating.
fn saturating_double(n: usize) -> (twice: usize)
    ensures
        twice == doubled(n),
{
    if n > usize::MAX / 2 {
        usize::MAX
    } else {
        n * 2
    }
}

impl MemoryRange {
    /// The range after the pointer was found outside it: the range moves one
    /// cell towards the pointer and is `cell_count` cells long, within the tape.
    pub open spec fn scrolled(self, cell_count: int, pointer: usize) -> MemoryRange {
        if pointer >= self.end {
            let end = if self.start + 1 + cell_count <= MEMORY_SIZE {
                self.start + 1 + cell_count
            } else {
                MEMORY_SIZE as int
            };
            MemoryRange {
                start: (if self.start + 1 <= end - cell_count {
                    self.start + 1
                } else {
                    end - cell_count
                }) as usize,
                end: end as usize,
            }
        } else if pointer < self.start {
            MemoryRange {
                start: (self.start - 1) as usize,
                end: (self.start - 1 + cell_count) as usize,
            }
        } else {
            self
        }
    }
}

impl Debugger {
    /// The range starts within the tape.
    pub open spec fn well_formed(self) -> bool {
        self.memory_range.start <= MEMORY_SIZE
    }

    /// A paused debugger for a terminal of the given size, in columns and rows.
    pub fn new(size: (u16, u16)) -> (debugger: Self)
        ensures
            debugger == (Debugger {
                paused: true,
                size,
                op_counter: 0,
                last_ops_per_second: 0,
                memory_range: MemoryRange { start: 0, end: (size.0 / 4) as usize },
                update_frequency: 0,
                update_counter: 0,
            }),
            debugger.well_formed(),
    {
        Self {
            paused: true,
            size,
            op_counter: 0,
            last_ops_per_second: 0,
            memory_range: MemoryRange { start: 0, end: size.0 as usize / 4 },
            update_frequency: 0,
            update_counter: 0,
        }
    }

    /// Calculates the region of the buffer which should be displayed.
    ///
    /// `width`: The width of the resulting rendered text (**in characters**)
    /// `buf_len`: The length of the buffer to be rendered
    /// `pos`: The position of the cursor in the buffer
    pub fn region_bounds(width: u16, buf_len: usize, pos: usize) -> (bounds: Bounds)
        ensures
            bounds == region(width, buf_len, pos),
            bounds.start <= pos,
            bounds.start + bounds.rel == pos,
            bounds.end <= buf_len,
    {
        let width = width as usize;

        let buf_start = pos.saturating_sub(width / 2);
        let buf_end = if buf_start + width / 2 <= buf_len {
            buf_start + width / 2
        } else {
            buf_len
        };

        let pos_rel = pos - buf_start;

        Bounds { start: buf_start, end: buf_end, rel: pos_rel as u16 }
    }

    /// Counts one instruction. Once a second has passed since the count was
    /// last taken, the count becomes the rate and starts anew.
    pub fn count_op(&mut self, second_passed: bool)
        requires
            second_passed || old(self).op_counter < usize::MAX,
        ensures
            *final(self) == (Debugger {
                op_counter: if second_passed {
                    1
                } else {
                    (old(self).op_counter + 1) as usize
                },
                last_ops_per_second: if second_passed {
                    old(self).op_counter
                } else {
                    old(self).last_ops_per_second
                },
                ..*old(self)
            }),
    {
        if second_passed {
            self.last_ops_per_second = self.op_counter;
            self.op_counter = 0;
        }
        self.op_counter += 1;
    }

    /// Whether to draw now: always when forced, else once every
    /// `update_frequency + 1` calls.
    pub fn should_draw(&mut self, force: bool) -> (draw: bool)
        ensures
            draw == (force || old(self).update_counter >= old(self).update_frequency),
            *final(self) == (Debugger {
                update_counter: if draw {
                    0
                } else {
                    (old(self).update_counter + 1) as usize
                },
                ..*old(self)
            }),
    {
        if !force && self.update_counter < self.update_frequency {
            self.update_counter += 1;
            return false;
        }
        self.update_counter = 0;
        true
    }

    /// Moves the range of cells on display one cell towards the pointer
    /// where the pointer is outside it, for a display `width` characters wide:
    /// a cell takes four.
    pub fn scroll_memory(&mut self, width: u16, pointer: usize)
        requires
            old(self).well_formed(),
        ensures
            final(self).well_formed(),
            *final(self) == (Debugger {
                memory_range: old(self).memory_range.scrolled((width / 4) as int, pointer),
                ..*old(self)
            }),
    {
        let cell_count = (width / 4) as usize;

        if pointer >= self.memory_range.end {
            self.memory_range.start += 1;
            self.memory_range.end = self.memory_range.start + cell_count;
            if self.memory_range.end > MEMORY_SIZE {
                self.memory_range.end = MEMORY_SIZE;
            }
            if self.memory_range.start > self.memory_range.end - cell_count {
                self.memory_range.start = self.memory_range.end - cell_count;
            }
        } else if pointer < self.memory_range.start {
            self.memory_range.start -= 1;
            self.memory_range.end = self.memory_range.start + cell_count;
        }
    }

    /// What a key means while the debugger is paused: `q` quits, `c` lets the
    /// program run on, any other character and the arrows step once, and any
    /// other key means nothing, so that the caller waits for the next.
    pub fn key_while_paused(&mut self, key: Key) -> (command: Option<DebugCommand>)
        ensures
            command == (match key {
                Key::Char(c) => if c == 'q' {
                    Some(DebugCommand::Quit)
                } else {
                    Some(DebugCommand::Step)
                },
                Key::Other => None,
                _ => Some(DebugCommand::Step),
            }),
            *final(self) == (Debugger {
                paused: old(self).paused && key != Key::Char('c'),
                ..*old(self)
            }),
    {
        match key {
            Key::Char('q') => Some(DebugCommand::Quit),
            Key::Char('c') => {
                self.paused = false;
                Some(DebugCommand::Step)
            },
            Key::Char(_) | Key::Left | Key::Right | Key::Up | Key::Down => Some(
                DebugCommand::Step,
            ),
            Key::Other => None,
        }
    }

    /// What a key means while the program runs: `q` quits, `p` pauses, the
    /// up arrow halves how often the display is drawn and the down arrow
    /// doubles it. Every key but `q` lets the program step.
    pub fn key_while_running(&mut self, key: Key) -> (command: DebugCommand)
        ensures
            command == (if key == Key::Char('q') {
                DebugCommand::Quit
            } else {
                DebugCommand::Step
            }),
            *final(self) == (Debugger {
                paused: old(self).paused || key == Key::Char('p'),
                update_frequency: match key {
                    Key::Up => if old(self).update_frequency == 0 {
                        1
                    } else {
                        doubled(old(self).update_frequency)
                    },
                    Key::Down => if old(self).update_frequency == 1 {
                        0
                    } else {
                        old(self).update_frequency / 2
                    },
                    _ => old(self).update_frequency,
                },
                ..*old(self)
            }),
    {
        match key {
            Key::Char('q') => {
                return DebugCommand::Quit;
            },
            Key::Char('p') => {
                self.paused = true;
            },
            Key::Up => {
                if self.update_frequency == 0 {
                    self.update_frequency = 1;
                } else {
                    self.update_frequency = saturating_double(self.update_frequency);
                }
            },
            Key::Down => {
                if self.update_frequency == 1 {
                    self.update_frequency = 0;
                } else {
                    self.update_frequency = self.update_frequency / 2;
                }
            },
            _ => {},
        }
        DebugCommand::Step
    }
}

} // verus!
