//! The state of the user interface: what it shows, how it reacts to the
//! messages of the workers and to the keyboard, and when it ends the
//! session. Drawing and reading the terminal are left to the caller.

use crate::msg::UIMessage;
use crate::pdb::{render_debug, renderable, rendered_text, DebugData};
use crate::profile::{count_of, Profile};
use crate::text::{joined, push_text, texts};
use itertools::Itertools;
use std::collections::VecDeque;
use vstd::prelude::*;
use vstd::slice::slice_to_vec;
use vstd::utf8::encode_utf8;

verus! {

/// How many trace lines the debug window keeps.
pub const DEBUG_LINES: usize = 10;

/// How many source lines the code window shows on either side of the
/// instruction pointer.
pub const CODE_WINDOW: usize = 5;

/// How many source lines a trace in batch mode shows on either side of the
/// instruction pointer.
pub const BATCH_WINDOW: usize = 2;

/// How many windows there are to switch between: the code, the memory dump
/// and the trace.
pub const WINDOW_COUNT: usize = 3;

/// Calls `Itertools::join` on the entries of the queue, from the oldest to
/// the newest. The result is the entries written one after another, with
/// the separator between each two of them, and empty for an empty queue.
/// This is taken on trust.
#[verifier::external_body]
fn join_entries(entries: &VecDeque<String>, separator: &str) -> (text: String)
    ensures
        text@ == joined(texts(entries@), separator@),
{
    entries.iter().join(separator)
}

/// A key of the keyboard.
#[derive(Debug, Clone, Copy, PartialEq, Eq, Structural)]
pub enum KeyCode {
    Esc,
    Char(char),
    Left,
    Right,
    Up,
    Down,
    Enter,
    /// Any other key.
    Other,
}

/// What the terminal reports.
#[derive(Debug, Clone, Copy, PartialEq, Eq, Structural)]
pub enum Input {
    /// A key was pressed, with or without the control key.
    Key { code: KeyCode, control: bool },
    /// The mouse wheel was turned up.
    ScrollUp,
    /// The mouse wheel was turned down.
    ScrollDown,
    /// Anything else.
    Other,
}

/// How the user interface reacts to an input.
#[derive(Debug)]
pub struct Reaction {
    /// Whether the session ends.
    pub quit: bool,
    /// The bytes to send to the serial device, in this order.
    pub keys: Vec<u8>,
}

/// How many CPUs run, and the histogram if one is recorded.
#[derive(Debug)]
pub struct Session {
    /// The number of running CPUs.
    pub cpus_running: usize,
    /// The histogram of the reported instruction pointers, if they are
    /// recorded.
    pub profile: Option<Profile>,
}

/// The number of running CPUs after a message.
pub open spec fn cpus_after(running: usize, message: UIMessage) -> usize {
    match message {
        UIMessage::CPUStarted(_) => if running < usize::MAX {
            (running + 1) as usize
        } else {
            running
        },
        UIMessage::CPUStopped(_) => if running > 0 {
            (running - 1) as usize
        } else {
            running
        },
        _ => running,
    }
}

/// The histogram after a message: a reported instruction pointer is
/// counted once, unless its count has reached the largest number.
pub open spec fn hits_after(hits: Map<u64, u64>, message: UIMessage) -> Map<u64, u64> {
    match message {
        UIMessage::SetEIP(eip) => if count_of(hits, eip) < u64::MAX {
            hits.insert(eip, (count_of(hits, eip) + 1) as u64)
        } else {
            hits
        },
        _ => hits,
    }
}

impl Session {
    /// A session with one running CPU, with an empty histogram if the
    /// instruction pointers are to be recorded.
    pub fn new(recording: bool) -> (session: Session)
        ensures
            session.cpus_running == 1,
            session.profile is Some == recording,
            session.profile matches Some(profile) ==> profile@ == Map::<u64, u64>::empty(),
    {
        Session {
            cpus_running: 1,
            profile: if recording {
                Some(Profile::new())
            } else {
                None
            },
        }
    }

    /// Takes note of a message. Returns whether the session ends: it ends
    /// when the last running CPU has stopped.
    pub fn on_message(&mut self, message: &UIMessage) -> (over: bool)
        ensures
            final(self).cpus_running == cpus_after(old(self).cpus_running, *message),
            over == (*message is CPUStopped && final(self).cpus_running == 0),
            final(self).profile is Some == old(self).profile is Some,
            old(self).profile matches Some(before) ==> final(self).profile matches Some(after)
                && after@ == hits_after(before@, *message),
    {
        match message {
            UIMessage::SetEIP(eip) => {
                match &mut self.profile {
                    Some(profile) => {
                        profile.record(*eip);
                    },
                    None => {},
                }
                false
            },
            UIMessage::CPUStarted(_) => {
                if self.cpus_running < usize::MAX {
                    self.cpus_running = self.cpus_running + 1;
                }
                false
            },
            UIMessage::CPUStopped(_) => {
                if self.cpus_running > 0 {
                    self.cpus_running = self.cpus_running - 1;
                }
                self.cpus_running == 0
            },
            _ => false,
        }
    }
}

/// What the user interface shows.
#[derive(Debug)]
pub struct Console {
    /// Which window is shown beside the serial output: 0 for the code, 1 for
    /// the memory dump, 2 for the trace.
    pub window: usize,
    /// By how many rows that window is scrolled.
    pub scroll: u16,
    /// The character that was typed last.
    pub previous_char: char,
    /// Everything that the guest has written to the serial port.
    pub serial_out: String,
    /// The source lines around the instruction pointer.
    pub code_out: String,
    /// The newest trace lines, oldest first.
    pub debug_entries: VecDeque<String>,
}

/// The trace lines that are kept once a line was added: the oldest line
/// goes when there are more than `DEBUG_LINES`.
pub open spec fn kept_entries(entries: Seq<Seq<char>>, line: Seq<char>) -> Seq<Seq<char>> {
    if entries.len() + 1 > DEBUG_LINES {
        entries.push(line).drop_first()
    } else {
        entries.push(line)
    }
}

/// The window after an input: the arrow keys to the left and to the right
/// go round the windows.
pub open spec fn window_after(window: usize, input: Input) -> usize {
    match input {
        Input::Key { code: KeyCode::Left, control } => if window != 0 {
            (window - 1) as usize
        } else {
            (WINDOW_COUNT - 1) as usize
        },
        Input::Key { code: KeyCode::Right, control } => ((window + 1) % WINDOW_COUNT as int)
            as usize,
        _ => window,
    }
}

/// The scroll position after an input: a change of window begins at the
/// top; the arrow keys up and down and the mouse wheel move by one row,
/// not above the top and not beyond the largest position.
pub open spec fn scroll_after(scroll: u16, input: Input) -> u16 {
    match input {
        Input::Key { code: KeyCode::Left, control } => 0,
        Input::Key { code: KeyCode::Right, control } => 0,
        Input::Key { code: KeyCode::Up, control } => if scroll != 0 {
            (scroll - 1) as u16
        } else {
            scroll
        },
        Input::ScrollUp => if scroll != 0 {
            (scroll - 1) as u16
        } else {
            scroll
        },
        Input::Key { code: KeyCode::Down, control } => if scroll < u16::MAX {
            (scroll + 1) as u16
        } else {
            scroll
        },
        Input::ScrollDown => if scroll < u16::MAX {
            (scroll + 1) as u16
        } else {
            scroll
        },
        _ => scroll,
    }
}

/// Whether the input ends the session: the escape key or the letter `c`,
/// pressed together with the control key.
pub open spec fn is_quit(input: Input) -> bool {
    input matches Input::Key { code, control } && control && (code == KeyCode::Esc || code
        == KeyCode::Char('c'))
}

/// The bytes that an input sends to the serial device. The enter key sends
/// a carriage return and a line feed. A character is sent in UTF-8; a line
/// feed that does not follow a carriage return is sent behind one.
pub open spec fn keys_of(previous: char, input: Input) -> Seq<u8> {
    if is_quit(input) {
        Seq::empty()
    } else {
        match input {
            Input::Key { code: KeyCode::Enter, control } => seq![13u8, 10u8],
            Input::Key { code: KeyCode::Char(c), control } => if c == '\n' && previous != '\r' {
                seq![13u8] + encode_utf8(seq![c])
            } else {
                encode_utf8(seq![c])
            },
            _ => Seq::empty(),
        }
    }
}

/// The character that was typed last, after an input.
pub open spec fn previous_after(previous: char, input: Input) -> char {
    if is_quit(input) {
        previous
    } else {
        match input {
            Input::Key { code: KeyCode::Char(c), control } => c,
            _ => previous,
        }
    }
}

/// The bytes of a character in UTF-8.
pub fn char_bytes(c: char) -> (bytes: Vec<u8>)
    ensures
        bytes@ == encode_utf8(seq![c]),
{
    let mut text = String::new();
    text.push(c);
    assert(text@ =~= seq![c]);
    slice_to_vec(text.as_str().as_bytes())
}

impl Console {
    /// The window exists and no more trace lines are kept than
    /// `DEBUG_LINES`.
    pub open spec fn wf(&self) -> bool {
        &&& self.window < WINDOW_COUNT
        &&& self.debug_entries@.len() <= DEBUG_LINES
    }

    /// The user interface at the start of a session: the code window, not
    /// scrolled, with a note in place of the code.
    pub fn new() -> (console: Console)
        ensures
            console.wf(),
            console.window == 0,
            console.scroll == 0,
            console.previous_char == '\0',
            console.serial_out@ == Seq::<char>::empty(),
            console.code_out@ == "CPU 0 is still starting..."@,
            console.debug_entries@ == Seq::<String>::empty(),
    {
        let mut code_out = String::new();
        push_text(&mut code_out, "CPU 0 is still starting...");
        assert(code_out@ =~= "CPU 0 is still starting..."@);
        Console {
            window: 0,
            scroll: 0,
            previous_char: '\0',
            serial_out: String::new(),
            code_out,
            debug_entries: VecDeque::new(),
        }
    }

    /// Shows a message: a serial byte joins the serial output as the
    /// character with that number, an instruction pointer renews the code
    /// window, a trace line joins the trace. Other messages change nothing.
    pub fn show(&mut self, message: UIMessage, debug_data: &Option<DebugData>)
        requires
            old(self).wf(),
            message matches UIMessage::SetEIP(eip) ==> renderable(*debug_data, eip),
        ensures
            final(self).wf(),
            final(self).window == old(self).window,
            final(self).scroll == old(self).scroll,
            final(self).previous_char == old(self).previous_char,
            final(self).serial_out@ == if let UIMessage::Serial(byte) = message {
                old(self).serial_out@.push(byte as char)
            } else {
                old(self).serial_out@
            },
            final(self).code_out@ == if let UIMessage::SetEIP(eip) = message {
                rendered_text(*debug_data, eip, CODE_WINDOW, false)
            } else {
                old(self).code_out@
            },
            texts(final(self).debug_entries@) == if let UIMessage::Debug(_, line) = message {
                kept_entries(texts(old(self).debug_entries@), line@)
            } else {
                texts(old(self).debug_entries@)
            },
    {
        match message {
            UIMessage::Serial(byte) => {
                self.serial_out.push(byte as char);
            },
            UIMessage::SetEIP(eip) => {
                let shown = render_debug(debug_data, eip, CODE_WINDOW, false);
                self.code_out = shown.1;
            },
            UIMessage::Debug(_, line) => {
                let ghost before = texts(self.debug_entries@);
                self.debug_entries.push_back(line);
                assert(texts(self.debug_entries@) =~= before.push(line@));
                if self.debug_entries.len() > DEBUG_LINES {
                    self.debug_entries.pop_front();
                    assert(texts(self.debug_entries@) =~= before.push(line@).drop_first());
                }
            },
            _ => {},
        }
    }

    /// The trace lines that are kept, each on a line of its own.
    pub fn debug_text(&self) -> (text: String)
        ensures
            text@ == joined(texts(self.debug_entries@), "\r\n"@),
    {
        join_entries(&self.debug_entries, "\r\n")
    }

    /// Reacts to an input: switches the window, scrolls, ends the session
    /// or sends keystrokes to the serial device.
    pub fn on_input(&mut self, input: Input) -> (reaction: Reaction)
        requires
            old(self).wf(),
        ensures
            final(self).wf(),
            reaction.quit == is_quit(input),
            reaction.keys@ == keys_of(old(self).previous_char, input),
            final(self).window == if is_quit(input) {
                old(self).window
            } else {
                window_after(old(self).window, input)
            },
            final(self).scroll == if is_quit(input) {
                old(self).scroll
            } else {
                scroll_after(old(self).scroll, input)
            },
            final(self).previous_char == previous_after(old(self).previous_char, input),
            final(self).serial_out == old(self).serial_out,
            final(self).code_out == old(self).code_out,
            final(self).debug_entries == old(self).debug_entries,
    {
        let mut keys: Vec<u8> = Vec::new();
        match input {
            Input::Key { code, control } => {
                if control && (code == KeyCode::Esc || code == KeyCode::Char('c')) {
                    return Reaction { quit: true, keys };
                }
                match code {
                    KeyCode::Left => {
                        self.scroll = 0;
                        if self.window != 0 {
                            self.window = self.window - 1;
                        } else {
                            self.window = WINDOW_COUNT - 1;
                        }
                    },
                    KeyCode::Right => {
                        self.scroll = 0;
                        self.window = (self.window + 1) % WINDOW_COUNT;
                    },
                    KeyCode::Up => {
                        if self.scroll != 0 {
                            self.scroll = self.scroll - 1;
                        }
                    },
                    KeyCode::Down => {
                        if self.scroll < u16::MAX {
                            self.scroll = self.scroll + 1;
                        }
                    },
                    KeyCode::Enter => {
                        keys.push(13);
                        keys.push(10);
                        assert(keys@ =~= seq![13u8, 10u8]);
                    },
                    KeyCode::Char(c) => {
                        if c == '\n' && self.previous_char != '\r' {
                            keys.push(13);
                        }
                        let mut bytes = char_bytes(c);
                        keys.append(&mut bytes);
                        assert(keys@ =~= keys_of(self.previous_char, input));
                        self.previous_char = c;
                    },
                    _ => {},
                }
            },
            Input::ScrollUp => {
                if self.scroll != 0 {
                    self.scroll = self.scroll - 1;
                }
            },
            Input::ScrollDown => {
                if self.scroll < u16::MAX {
                    self.scroll = self.scroll + 1;
                }
            },
            Input::Other => {},
        }
        Reaction { quit: false, keys }
    }
}

/// The title of a window.
pub fn window_title(window: usize) -> (title: &'static str)
    ensures
        title@ == if window == 0 {
            "Code"@
        } else if window == 1 {
            "Memory Dump"@
        } else {
            "Debug (CPU 0)"@
        },
{
    if window == 0 {
        "Code"
    } else if window == 1 {
        "Memory Dump"
    } else {
        "Debug (CPU 0)"
    }
}

} // verus!
