//! Presentation model: the snapshot a frame renders, and the display
//! formats of the terminal front end — identifiers in lowercase hexadecimal,
//! times as whole microseconds since the Unix epoch, severities as
//! upper-case words — plus the key bindings of the navigation commands.

use vstd::prelude::*;

verus! {

use vstd::string::StringExecFns;
use crate::codec::Level;
use crate::nav::App;
use crate::store::LaneV;
use crate::store::LogV;
use crate::store::ProcV;
use crate::store::StoredLog;

/// The digit character for a value below sixteen.
pub open spec fn spec_digit(d: int) -> char {
    if d == 0 {
        '0'
    } else if d == 1 {
        '1'
    } else if d == 2 {
        '2'
    } else if d == 3 {
        '3'
    } else if d == 4 {
        '4'
    } else if d == 5 {
        '5'
    } else if d == 6 {
        '6'
    } else if d == 7 {
        '7'
    } else if d == 8 {
        '8'
    } else if d == 9 {
        '9'
    } else if d == 10 {
        'a'
    } else if d == 11 {
        'b'
    } else if d == 12 {
        'c'
    } else if d == 13 {
        'd'
    } else if d == 14 {
        'e'
    } else {
        'f'
    }
}

/// Lowercase hexadecimal digits of a number, most significant first, no
/// prefix and no leading zeros (zero itself is "0").
pub open spec fn spec_hex(n: nat) -> Seq<char>
    decreases n,
{
    if n < 16 {
        seq![spec_digit(n as int)]
    } else {
        spec_hex(n / 16) + seq![spec_digit((n % 16) as int)]
    }
}

/// Decimal digits of a number, most significant first.
pub open spec fn spec_dec(n: nat) -> Seq<char>
    decreases n,
{
    if n < 10 {
        seq![spec_digit(n as int)]
    } else {
        spec_dec(n / 10) + seq![spec_digit((n % 10) as int)]
    }
}

/// The one-character string of a digit value.
fn digit_str(d: u8) -> (s: &'static str)
    requires
        d < 16,
    ensures
        s@ == seq![spec_digit(d as int)],
{
    proof {
        reveal_strlit("0");
        reveal_strlit("1");
        reveal_strlit("2");
        reveal_strlit("3");
        reveal_strlit("4");
        reveal_strlit("5");
        reveal_strlit("6");
        reveal_strlit("7");
        reveal_strlit("8");
        reveal_strlit("9");
        reveal_strlit("a");
        reveal_strlit("b");
        reveal_strlit("c");
        reveal_strlit("d");
        reveal_strlit("e");
        reveal_strlit("f");
    }
    if d == 0 {
        "0"
    } else if d == 1 {
        "1"
    } else if d == 2 {
        "2"
    } else if d == 3 {
        "3"
    } else if d == 4 {
        "4"
    } else if d == 5 {
        "5"
    } else if d == 6 {
        "6"
    } else if d == 7 {
        "7"
    } else if d == 8 {
        "8"
    } else if d == 9 {
        "9"
    } else if d == 10 {
        "a"
    } else if d == 11 {
        "b"
    } else if d == 12 {
        "c"
    } else if d == 13 {
        "d"
    } else if d == 14 {
        "e"
    } else {
        "f"
    }
}

/// A number in lowercase hexadecimal, as the process and thread columns
/// display identifiers.
pub fn u64_to_hex(n: u64) -> (s: String)
    ensures
        s@ == spec_hex(n as nat),
    decreases n,
{
    if n < 16 {
        digit_str(n as u8).to_owned()
    } else {
        let mut s = u64_to_hex(n / 16);
        s.append(digit_str((n % 16) as u8));
        s
    }
}

/// A process identifier in lowercase hexadecimal: the two's-complement bits
/// of the pid, as an unsigned number.
pub fn pid_hex(pid: i32) -> (s: String)
    ensures
        s@ == spec_hex((pid as u32) as nat),
{
    u64_to_hex(pid as u32 as u64)
}

/// A number in decimal, as the time column displays microseconds.
pub fn u128_to_dec(n: u128) -> (s: String)
    ensures
        s@ == spec_dec(n as nat),
    decreases n,
{
    if n < 10 {
        digit_str(n as u8).to_owned()
    } else {
        let mut s = u128_to_dec(n / 10);
        s.append(digit_str((n % 10) as u8));
        s
    }
}

/// Whole microseconds since the Unix epoch of a stored timestamp.
pub open spec fn spec_micros(seconds: u64, nanos: u32) -> nat {
    (seconds as nat) * 1000000 + (nanos as nat) / 1000
}

/// The time column of a log row: the timestamp as whole microseconds since
/// the Unix epoch, in decimal.
pub fn micros_string(seconds: u64, nanos: u32) -> (s: String)
    ensures
        s@ == spec_dec(spec_micros(seconds, nanos)),
{
    let m: u128 = (seconds as u128) * 1000000 + ((nanos / 1000) as u128);
    u128_to_dec(m)
}

/// The level column of a log row.
pub open spec fn spec_level_name(l: Level) -> Seq<char> {
    match l {
        Level::Error => "ERROR"@,
        Level::Warn => "WARN"@,
        Level::Info => "INFO"@,
        Level::Debug => "DEBUG"@,
        Level::Trace => "TRACE"@,
    }
}

/// A severity as the upper-case word the log table displays.
pub fn level_name(l: Level) -> (s: String)
    ensures
        s@ == spec_level_name(l),
{
    match l {
        Level::Error => "ERROR".to_owned(),
        Level::Warn => "WARN".to_owned(),
        Level::Info => "INFO".to_owned(),
        Level::Debug => "DEBUG".to_owned(),
        Level::Trace => "TRACE".to_owned(),
    }
}

/// A navigation or control command of the terminal front end.
#[derive(Clone, Copy, PartialEq, Eq, Structural, Debug)]
pub enum Command {
    Quit,
    PreviousProcess,
    NextProcess,
    PreviousThread,
    NextThread,
    PreviousLog,
    NextLog,
}

/// The key bindings: q quits, w/s move over processes, e/d over threads,
/// r/f over log lines; any other key does nothing.
pub open spec fn spec_key_command(c: char) -> Option<Command> {
    if c == 'q' {
        Some(Command::Quit)
    } else if c == 'w' {
        Some(Command::PreviousProcess)
    } else if c == 's' {
        Some(Command::NextProcess)
    } else if c == 'e' {
        Some(Command::PreviousThread)
    } else if c == 'd' {
        Some(Command::NextThread)
    } else if c == 'r' {
        Some(Command::PreviousLog)
    } else if c == 'f' {
        Some(Command::NextLog)
    } else {
        None
    }
}

/// Translates one pressed key into its command, if it has one.
pub fn key_to_command(c: char) -> (r: Option<Command>)
    ensures
        r == spec_key_command(c),
{
    if c == 'q' {
        Some(Command::Quit)
    } else if c == 'w' {
        Some(Command::PreviousProcess)
    } else if c == 's' {
        Some(Command::NextProcess)
    } else if c == 'e' {
        Some(Command::PreviousThread)
    } else if c == 'd' {
        Some(Command::NextThread)
    } else if c == 'r' {
        Some(Command::PreviousLog)
    } else if c == 'f' {
        Some(Command::NextLog)
    } else {
        None
    }
}

/// What one frame renders: every process, the selected process's threads,
/// and a window of the selected lane's entries.
pub struct RenderFrame {
    pub processes: Vec<i32>,
    pub threads: Vec<u64>,
    pub entries: Vec<StoredLog>,
}

impl App {
    /// A consistent snapshot for one frame: the pids in first-sight order,
    /// the tids of the selected process, and up to `max_rows` entries of the
    /// selected lane starting at the log offset.
    pub fn snapshot(&self, max_rows: usize) -> (f: RenderFrame)
        requires
            self.sel_inv(),
        ensures
            f.processes@ == self.store@.map_values(|p: ProcV| p.pid),
            f.threads@ == (match self.process_cursor {
                Some(p) => self.store@[p as int].lanes.map_values(|l: LaneV| l.tid),
                None => Seq::<u64>::empty(),
            }),
            ({
                let entries = match (self.process_cursor, self.thread_cursor) {
                    (Some(p), Some(t)) => self.store@[p as int].lanes[t as int].entries,
                    _ => Seq::<LogV>::empty(),
                };
                let off = self.log_offset as int;
                let end = if off + max_rows <= entries.len() {
                    off + max_rows
                } else {
                    entries.len() as int
                };
                f.entries@.map_values(|e: StoredLog| e@) == entries.subrange(off, end)
            }),
    {
        let n = self.store.process_count();
        let mut processes: Vec<i32> = Vec::new();
        let mut i: usize = 0;
        while i < n
            invariant
                n == self.store@.len(),
                self.sel_inv(),
                i <= n,
                processes@ == self.store@.map_values(|p: ProcV| p.pid).take(i as int),
            decreases n - i,
        {
            processes.push(self.store.pid_at(i));
            i = i + 1;
            proof {
                assert(processes@ =~= self.store@.map_values(|p: ProcV| p.pid).take(i as int));
            }
        }
        proof {
            assert(processes@ =~= self.store@.map_values(|p: ProcV| p.pid));
        }
        let mut threads: Vec<u64> = Vec::new();
        if let Some(p) = self.process_cursor {
            let m = self.store.lane_count(p);
            let mut j: usize = 0;
            while j < m
                invariant
                    self.sel_inv(),
                    self.process_cursor == Some(p),
                    (p as int) < self.store@.len(),
                    m == self.store@[p as int].lanes.len(),
                    j <= m,
                    threads@ == self.store@[p as int].lanes.map_values(|l: LaneV| l.tid).take(
                        j as int,
                    ),
                decreases m - j,
            {
                threads.push(self.store.tid_at(p, j));
                j = j + 1;
                proof {
                    assert(threads@ =~= self.store@[p as int].lanes.map_values(
                        |l: LaneV| l.tid,
                    ).take(j as int));
                }
            }
            proof {
                assert(threads@ =~= self.store@[p as int].lanes.map_values(|l: LaneV| l.tid));
            }
        }
        let mut entries: Vec<StoredLog> = Vec::new();
        if let (Some(p), Some(t)) = (self.process_cursor, self.thread_cursor) {
            let cnt = self.store.entry_count(p, t);
            let off = self.log_offset;
            let end = if max_rows < cnt - off {
                off + max_rows
            } else {
                cnt
            };
            let mut k: usize = off;
            while k < end
                invariant
                    self.sel_inv(),
                    self.process_cursor == Some(p),
                    self.thread_cursor == Some(t),
                    (p as int) < self.store@.len(),
                    (t as int) < self.store@[p as int].lanes.len(),
                    cnt == self.store@[p as int].lanes[t as int].entries.len(),
                    off == self.log_offset,
                    off <= end <= cnt,
                    off <= k <= end,
                    entries@.map_values(|e: StoredLog| e@)
                        == self.store@[p as int].lanes[t as int].entries.subrange(
                        off as int,
                        k as int,
                    ),
                decreases end - k,
            {
                let ghost before = entries@;
                let e = self.store.entry_at(p, t, k);
                entries.push(e);
                k = k + 1;
                proof {
                    assert(entries@ == before.push(e));
                    assert(entries@.map_values(|e: StoredLog| e@) =~= before.map_values(
                        |e: StoredLog| e@,
                    ).push(e@));
                    assert(entries@.map_values(|e: StoredLog| e@)
                        =~= self.store@[p as int].lanes[t as int].entries.subrange(
                        off as int,
                        k as int,
                    ));
                }
            }
        }
        proof {
            let entries_s = match (self.process_cursor, self.thread_cursor) {
                (Some(p), Some(t)) => self.store@[p as int].lanes[t as int].entries,
                _ => Seq::<LogV>::empty(),
            };
            let off = self.log_offset as int;
            let end = if off + max_rows <= entries_s.len() {
                off + max_rows
            } else {
                entries_s.len() as int
            };
            assert(entries@.map_values(|e: StoredLog| e@) =~= entries_s.subrange(off, end));
        }
        RenderFrame { processes, threads, entries }
    }
}

} // verus!
