//! The decisions of the read-eval-print loop: what a line of input means
//! for the loop's state, and what the loop is to do next.

use crate::text::chars_of;
use crate::text::same_text;
use vstd::prelude::*;

verus! {

/// What the loop does with a line.
#[derive(PartialEq, Eq, Debug, Clone, Copy, Structural)]
pub enum ReplResult {
    /// Read the next line.
    BackToStart,
    /// Compile and run the current line.
    KeepExecuting,
    /// Leave the loop.
    Stop,
}

/// What the loop has to tell the user.
#[derive(PartialEq, Eq, Debug, Clone, Copy, Structural)]
pub enum ReplNotice {
    Nothing,
    Help,
    Grammar,
    MultilineOn,
    MultilineOff,
}

/// The loop's state as plain values.
pub struct ReplView {
    pub buffer: Seq<char>,
    pub current_line: Seq<char>,
    pub show_ast: bool,
    pub show_ir: bool,
    pub show_x64: bool,
    pub multiline_mode: bool,
}

/// The state, the decision and the notice after a command.
pub struct ReplStep {
    pub state: ReplView,
    pub result: ReplResult,
    pub notice: ReplNotice,
}

pub struct Repl {
    buffer: String,
    current_line: String,
    show_ast: bool,
    show_ir: bool,
    show_x64: bool,
    multiline_mode: bool,
    notice: ReplNotice,
}

impl View for Repl {
    type V = ReplView;

    closed spec fn view(&self) -> ReplView {
        ReplView {
            buffer: self.buffer@,
            current_line: self.current_line@,
            show_ast: self.show_ast,
            show_ir: self.show_ir,
            show_x64: self.show_x64,
            multiline_mode: self.multiline_mode,
        }
    }
}

/// What a command does. The three `:show-` commands flip their switch;
/// `:help` and `:grammer` ask for a text; `:quit` stops the loop; `;;`
/// enters multi-line mode, or leaves it and runs what was gathered (or
/// forgets the input where nothing but `;;` was gathered). Anything else
/// does nothing.
pub open spec fn command_spec(s: ReplView, command: Seq<char>) -> ReplStep {
    if command == ":help"@ {
        ReplStep { state: s, result: ReplResult::BackToStart, notice: ReplNotice::Help }
    } else if command == ":show-ast"@ {
        ReplStep {
            state: ReplView { show_ast: !s.show_ast, ..s },
            result: ReplResult::BackToStart,
            notice: ReplNotice::Nothing,
        }
    } else if command == ":show-ir"@ {
        ReplStep {
            state: ReplView { show_ir: !s.show_ir, ..s },
            result: ReplResult::BackToStart,
            notice: ReplNotice::Nothing,
        }
    } else if command == ":show-x64"@ {
        ReplStep {
            state: ReplView { show_x64: !s.show_x64, ..s },
            result: ReplResult::BackToStart,
            notice: ReplNotice::Nothing,
        }
    } else if command == ":grammer"@ {
        ReplStep { state: s, result: ReplResult::BackToStart, notice: ReplNotice::Grammar }
    } else if command == ":quit"@ {
        ReplStep { state: s, result: ReplResult::Stop, notice: ReplNotice::Nothing }
    } else if command == ";;"@ {
        if s.multiline_mode {
            if s.buffer == ";;"@ {
                ReplStep {
                    state: ReplView {
                        multiline_mode: false,
                        buffer: Seq::empty(),
                        current_line: Seq::empty(),
                        ..s
                    },
                    result: ReplResult::BackToStart,
                    notice: ReplNotice::MultilineOff,
                }
            } else {
                ReplStep {
                    state: ReplView { multiline_mode: false, current_line: s.buffer, ..s },
                    result: ReplResult::KeepExecuting,
                    notice: ReplNotice::MultilineOff,
                }
            }
        } else {
            ReplStep {
                state: ReplView { multiline_mode: true, ..s },
                result: ReplResult::BackToStart,
                notice: ReplNotice::MultilineOn,
            }
        }
    } else {
        ReplStep { state: s, result: ReplResult::BackToStart, notice: ReplNotice::Nothing }
    }
}

/// What the current line means: nothing where it is empty; a command where
/// it starts with a colon or is `;;`; in multi-line mode a line to gather;
/// else a program to run.
pub open spec fn check_spec(s: ReplView) -> ReplStep {
    let input = s.current_line;
    if input.len() == 0 {
        ReplStep { state: s, result: ReplResult::BackToStart, notice: ReplNotice::Nothing }
    } else if input[0] == ':' || input == ";;"@ {
        command_spec(s, input)
    } else if s.multiline_mode {
        ReplStep { state: s, result: ReplResult::BackToStart, notice: ReplNotice::Nothing }
    } else {
        ReplStep { state: s, result: ReplResult::KeepExecuting, notice: ReplNotice::Nothing }
    }
}

impl Repl {
    /// The loop's state before any line was read: nothing gathered, every
    /// switch off, and nothing to tell the user.
    pub fn new() -> (r: Self)
        ensures
            r@ == (ReplView {
                buffer: Seq::empty(),
                current_line: Seq::empty(),
                show_ast: false,
                show_ir: false,
                show_x64: false,
                multiline_mode: false,
            }),
            r.told() == ReplNotice::Nothing,
    {
        Repl {
            buffer: String::new(),
            current_line: String::new(),
            show_ast: false,
            show_ir: false,
            show_x64: false,
            multiline_mode: false,
            notice: ReplNotice::Nothing,
        }
    }

    /// What the last command asked to tell the user.
    pub closed spec fn told(&self) -> ReplNotice {
        self.notice
    }

    /// What the last command asked to tell the user; asking forgets it.
    pub fn take_notice(&mut self) -> (r: ReplNotice)
        ensures
            r == old(self).told(),
            final(self).told() == ReplNotice::Nothing,
            final(self)@ == old(self)@,
    {
        let r = self.notice;
        self.notice = ReplNotice::Nothing;
        r
    }

    /// The line to compile and run.
    pub fn current_line(&self) -> (r: &String)
        ensures
            r@ == self@.current_line,
    {
        &self.current_line
    }

    /// Whether the tree form is to be shown.
    pub fn show_ast(&self) -> (r: bool)
        ensures
            r == self@.show_ast,
    {
        self.show_ast
    }

    /// Whether the intermediate form is to be shown.
    pub fn show_ir(&self) -> (r: bool)
        ensures
            r == self@.show_ir,
    {
        self.show_ir
    }

    /// Whether the x86-64 form is to be shown.
    pub fn show_x64(&self) -> (r: bool)
        ensures
            r == self@.show_x64,
    {
        self.show_x64
    }

    fn quit(&mut self) -> (r: ReplResult)
        ensures
            r == ReplResult::Stop,
            *final(self) == *old(self),
    {
        ReplResult::Stop
    }

    /// Does what the command asks.
    pub fn handle_repl_command(&mut self, command: &String) -> (r: ReplResult)
        ensures
            r == command_spec(old(self)@, command@).result,
            final(self)@ == command_spec(old(self)@, command@).state,
            final(self).told() == command_spec(old(self)@, command@).notice,
    {
        self.notice = ReplNotice::Nothing;
        if same_text(command, ":help") {
            self.notice = ReplNotice::Help;
            ReplResult::BackToStart
        } else if same_text(command, ":show-ast") {
            self.show_ast = !self.show_ast;
            ReplResult::BackToStart
        } else if same_text(command, ":show-ir") {
            self.show_ir = !self.show_ir;
            ReplResult::BackToStart
        } else if same_text(command, ":show-x64") {
            self.show_x64 = !self.show_x64;
            ReplResult::BackToStart
        } else if same_text(command, ":grammer") {
            self.notice = ReplNotice::Grammar;
            ReplResult::BackToStart
        } else if same_text(command, ":quit") {
            self.quit()
        } else if same_text(command, ";;") {
            if self.multiline_mode {
                self.notice = ReplNotice::MultilineOff;
                self.multiline_mode = false;
                // the user switched the mode on and off again and entered nothing
                if same_text(&self.buffer, ";;") {
                    self.clear_input();
                    return ReplResult::BackToStart;
                }
                self.current_line = self.buffer.clone();
                ReplResult::KeepExecuting
            } else {
                self.notice = ReplNotice::MultilineOn;
                self.multiline_mode = true;
                ReplResult::BackToStart
            }
        } else {
            ReplResult::BackToStart
        }
    }

    /// Decides what the current line means.
    pub fn check_input_for_command(&mut self) -> (r: ReplResult)
        ensures
            r == check_spec(old(self)@).result,
            final(self)@ == check_spec(old(self)@).state,
            final(self).told() == check_spec(old(self)@).notice,
    {
        self.notice = ReplNotice::Nothing;
        let input = self.current_line.clone();
        let chars = chars_of(input.as_str());
        if chars.len() == 0 {
            ReplResult::BackToStart
        } else if chars[0] == ':' || same_text(&input, ";;") {
            self.handle_repl_command(&input)
        } else if self.multiline_mode {
            ReplResult::BackToStart
        } else {
            ReplResult::KeepExecuting
        }
    }

    /// Takes a line of input: it is the current line, and in multi-line
    /// mode it is gathered.
    pub fn read_line(&mut self, line: String)
        ensures
            final(self)@ == (ReplView {
                current_line: line@,
                buffer: if old(self)@.multiline_mode {
                    old(self)@.buffer + line@
                } else {
                    old(self)@.buffer
                },
                ..old(self)@
            }),
            final(self).told() == old(self).told(),
    {
        if self.multiline_mode {
            self.buffer.append(line.as_str());
        }
        self.current_line = line;
    }

    /// Forgets the input.
    pub fn clear_input(&mut self)
        ensures
            final(self)@ == (ReplView {
                current_line: Seq::empty(),
                buffer: Seq::empty(),
                ..old(self)@
            }),
            final(self).told() == old(self).told(),
    {
        self.current_line = String::new();
        self.buffer = self.current_line.clone();
    }

    /// Forgets what was gathered; the loop does so after a program has run.
    pub fn clear_buffer(&mut self)
        ensures
            final(self)@ == (ReplView { buffer: Seq::empty(), ..old(self)@ }),
            final(self).told() == old(self).told(),
    {
        self.buffer = String::new();
    }
}

} // verus!
