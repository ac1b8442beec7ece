//! Logging across the hibernate and resume transition: where log lines go,
//! what is kept in memory until it can be flushed, and the parsing of the
//! kernel-message-format lines that are replayed into the system log.
use vstd::prelude::*;
use vstd::string::*;

verus! {

/// Severity of a log record.
#[derive(Clone, Copy, PartialEq, Eq, Debug, Structural)]
pub enum LogLevel {
    Error,
    Warn,
    Info,
    Debug,
    Trace,
}

/// Longest formatted log line, in bytes; longer ones are dropped.
pub const MAX_LINE: usize = 1024;

/// The syslog facility of user-level messages.
pub const LOG_USER: usize = 8;

/// The level of a syslog priority (the low three bits of a `<facprio>`).
pub open spec fn level_of(v: u8) -> LogLevel {
    if v <= 3 {
        LogLevel::Error
    } else if v == 4 {
        LogLevel::Warn
    } else if v <= 6 {
        LogLevel::Info
    } else {
        LogLevel::Debug
    }
}

/// The syslog priority of a level.
pub open spec fn priority_of(l: LogLevel) -> usize {
    match l {
        LogLevel::Error => 3,
        LogLevel::Warn => 4,
        LogLevel::Info => 6,
        LogLevel::Debug => 7,
        LogLevel::Trace => 7,
    }
}

/// Maps a syslog priority to a level.
pub fn level_from_u8(value: u8) -> (r: LogLevel)
    ensures
        r == level_of(value),
{
    match value {
        0 => LogLevel::Error,
        1 => LogLevel::Error,
        2 => LogLevel::Error,
        3 => LogLevel::Error,
        4 => LogLevel::Warn,
        5 => LogLevel::Info,
        6 => LogLevel::Info,
        7 => LogLevel::Debug,
        _ => LogLevel::Debug,
    }
}

/// Maps a level to its syslog priority.
pub fn priority_from_level(level: LogLevel) -> (r: usize)
    ensures
        r == priority_of(level),
{
    match level {
        LogLevel::Error => 3,
        LogLevel::Warn => 4,
        LogLevel::Info => 6,
        LogLevel::Debug => 7,
        LogLevel::Trace => 7,
    }
}

/// The `<facprio>` value of a user-facility record at `level`.
pub fn facprio(level: LogLevel) -> (r: usize)
    ensures
        r == priority_of(level) + LOG_USER,
{
    priority_from_level(level) + LOG_USER
}

/// Why a kernel-message-format line could not be parsed.
#[derive(Clone, Copy, PartialEq, Eq, Debug, Structural)]
pub enum RecordError {
    /// The line holds no `": "` between header and contents.
    NoColon,
    /// The header is too short to hold a `<facprio>`.
    ShortFacprio,
    /// The `<facprio>` is not a number from 0 to 255.
    BadFacprio,
}

/// Whether `s` holds `": "` at `i`.
pub open spec fn sep_at(s: Seq<char>, i: int) -> bool {
    0 <= i && i + 1 < s.len() && s[i] == ':' && s[i + 1] == ' '
}

/// Whether `i` is the first place where `s` holds `": "`.
pub open spec fn first_sep(s: Seq<char>, i: int) -> bool {
    sep_at(s, i) && forall|j: int| 0 <= j < i ==> !sep_at(s, j)
}

/// The part of `h` before its first `>`, or all of `h` when it has none.
pub open spec fn before_gt(h: Seq<char>, k: int) -> bool {
    &&& 0 <= k <= h.len()
    &&& forall|j: int| 0 <= j < k ==> h[j] != '>'
    &&& k < h.len() ==> h[k] == '>'
}

/// Whether `c` is an ASCII decimal digit.
pub open spec fn is_digit(c: char) -> bool {
    '0' <= c <= '9'
}

/// The number that decimal digits `s` spell.
pub open spec fn dec_val(s: Seq<char>) -> nat
    decreases s.len(),
{
    if s.len() == 0 {
        0
    } else {
        (dec_val(s.drop_last()) * 10 + (s.last() as int - '0' as int)) as nat
    }
}

/// The digits of a number, after an optional `+`.
pub open spec fn unsigned_digits(s: Seq<char>) -> Seq<char> {
    if s.len() > 0 && s[0] == '+' {
        s.drop_first()
    } else {
        s
    }
}

/// The `u8` that `s` spells in decimal (an optional `+`, then one or more
/// digits), if it spells one.
pub open spec fn parse_u8_spec(s: Seq<char>) -> Option<u8> {
    let d = unsigned_digits(s);
    if d.len() > 0 && (forall|i: int| 0 <= i < d.len() ==> is_digit(#[trigger] d[i])) && dec_val(d)
        <= 255 {
        Some(dec_val(d) as u8)
    } else {
        None
    }
}

/// Parses a decimal `u8`: an optional `+`, then one or more digits.
pub fn parse_u8(s: &str) -> (r: Option<u8>)
    ensures
        r == parse_u8_spec(s@),
{
    let n = s.unicode_len();
    let mut i: usize = 0;
    if n > 0 && s.get_char(0) == '+' {
        i = 1;
    }
    let ghost d = unsigned_digits(s@);
    assert(d =~= s@.subrange(i as int, n as int));
    if i == n {
        return None;
    }
    let start = i;
    let mut v: u32 = 0;
    while i < n
        invariant
            start <= i <= n,
            n == s@.len(),
            d == unsigned_digits(s@),
            d == s@.subrange(start as int, n as int),
            v as nat == dec_val(s@.subrange(start as int, i as int)),
            v <= 255,
            forall|j: int| start <= j < i ==> is_digit(#[trigger] s@[j]),
        decreases n - i,
    {
        let c = s.get_char(i);
        assert(s@.subrange(start as int, i + 1).drop_last() =~= s@.subrange(start as int, i as int));
        if !('0' <= c && c <= '9') {
            assert(d[i - start] == s@[i as int]);
            assert(!is_digit(d[i - start]));
            return None;
        }
        v = v * 10 + (c as u32 - '0' as u32);
        if v > 255 {
            proof {
                if forall|j: int| 0 <= j < d.len() ==> is_digit(#[trigger] d[j]) {
                    lemma_dec_val_prefix(d, (i + 1 - start) as int);
                    assert(d.subrange(0, (i + 1 - start) as int) =~= s@.subrange(start as int, i + 1));
                }
            }
            return None;
        }
        i = i + 1;
    }
    proof {
        assert(s@.subrange(start as int, i as int) =~= d);
        assert forall|j: int| 0 <= j < d.len() implies is_digit(#[trigger] d[j]) by {
            assert(d[j] == s@[start + j]);
        }
    }
    Some(v as u8)
}

/// A number spelled by digits is at least the number its prefix spells.
proof fn lemma_dec_val_prefix(d: Seq<char>, k: int)
    requires
        0 <= k <= d.len(),
        forall|i: int| 0 <= i < d.len() ==> is_digit(#[trigger] d[i]),
    ensures
        dec_val(d.subrange(0, k)) <= dec_val(d),
    decreases d.len(),
{
    if k < d.len() {
        assert(d.drop_last().subrange(0, k) =~= d.subrange(0, k));
        assert forall|i: int| 0 <= i < d.drop_last().len() implies is_digit(#[trigger] d.drop_last()[i]) by {
            assert(d.drop_last()[i] == d[i]);
        }
        lemma_dec_val_prefix(d.drop_last(), k);
        assert(is_digit(d.last()));
    } else {
        assert(d.subrange(0, k) =~= d);
    }
}

/// The outcome of parsing a kernel-message-format line
/// (`<11>hiberman: R [file:line] text`): its contents after the first `": "`
/// and the level of its `<facprio>`.
pub open spec fn record_spec(s: Seq<char>) -> Result<(Seq<char>, LogLevel), RecordError> {
    if !(exists|i: int| sep_at(s, i)) {
        Err(RecordError::NoColon)
    } else {
        let i = choose|i: int| first_sep(s, i);
        let h = s.subrange(0, i);
        let k = choose|k: int| before_gt(h, k);
        let f = h.subrange(0, k);
        if f.len() < 2 {
            Err(RecordError::ShortFacprio)
        } else {
            match parse_u8_spec(f.drop_first()) {
                Some(v) => Ok((s.subrange(i + 2, s.len() as int), level_of(v & 7))),
                None => Err(RecordError::BadFacprio),
            }
        }
    }
}

proof fn lemma_first_sep_unique(s: Seq<char>, i: int, j: int)
    requires
        first_sep(s, i),
        first_sep(s, j),
    ensures
        i == j,
{
}

proof fn lemma_before_gt_unique(h: Seq<char>, a: int, b: int)
    requires
        before_gt(h, a),
        before_gt(h, b),
    ensures
        a == b,
{
}

/// Splits a kernel-message-format line into its contents and level.
pub fn parse_rfc3164_record(line: &str) -> (r: Result<(&str, LogLevel), RecordError>)
    ensures
        match record_spec(line@) {
            Ok((c, l)) => r matches Ok((rc, rl)) && rc@ == c && rl == l,
            Err(e) => r == Err::<(&str, LogLevel), RecordError>(e),
        },
{
    let n = line.unicode_len();
    let mut i: usize = 0;
    let mut found = false;
    loop
        invariant_except_break
            !found,
        invariant
            n == line@.len(),
            i <= n,
            forall|j: int| 0 <= j < i ==> !sep_at(line@, j),
        ensures
            i <= n,
            forall|j: int| 0 <= j < i ==> !sep_at(line@, j),
            found ==> sep_at(line@, i as int),
            !found ==> i == n,
        decreases n - i,
    {
        if i >= n {
            break;
        }
        if i + 1 < n && line.get_char(i) == ':' && line.get_char(i + 1) == ' ' {
            found = true;
            break;
        }
        i = i + 1;
    }
    if !found {
        proof {
            assert forall|j: int| !sep_at(line@, j) by {
                if 0 <= j && j < i {
                }
            }
        }
        return Err(RecordError::NoColon);
    }
    assert(first_sep(line@, i as int));
    proof {
        let c = choose|c: int| first_sep(line@, c);
        lemma_first_sep_unique(line@, c, i as int);
    }
    let ghost h = line@.subrange(0, i as int);
    let mut k: usize = 0;
    while k < i
        invariant
            n == line@.len(),
            i < n,
            k <= i,
            h == line@.subrange(0, i as int),
            forall|j: int| 0 <= j < k ==> h[j] != '>',
        ensures
            k <= i,
            forall|j: int| 0 <= j < k ==> h[j] != '>',
            k < i ==> h[k as int] == '>',
        decreases i - k,
    {
        if line.get_char(k) == '>' {
            break;
        }
        k = k + 1;
    }
    assert(before_gt(h, k as int));
    proof {
        let c = choose|c: int| before_gt(h, c);
        lemma_before_gt_unique(h, c, k as int);
    }
    if k < 2 {
        return Err(RecordError::ShortFacprio);
    }
    let digits = line.substring_char(1, k);
    assert(digits@ =~= h.subrange(0, k as int).drop_first());
    let contents = line.substring_char(i + 2, n);
    match parse_u8(digits) {
        Some(v) => Ok((contents, level_from_u8(v & 7))),
        None => Err(RecordError::BadFacprio),
    }
}

/// Where log lines go.
#[derive(Clone, Copy, PartialEq, Eq, Debug, Structural)]
pub enum HiberlogOut {
    /// Kept in memory until the log is redirected.
    BufferInMemory,
    /// Forwarded to the system logger.
    Syslog,
    /// Written to the open log file.
    File,
}

/// What to do with one formatted log line.
#[derive(Clone, Copy, PartialEq, Eq, Debug, Structural)]
pub struct LineRoute {
    /// Forward the record to the system logger, and do nothing else.
    pub to_syslog: bool,
    /// Also write the line to the kernel log, in case no later replay happens.
    pub to_kmsg: bool,
    /// Write the line to the log file.
    pub to_file: bool,
}

/// What a flush hands to the new destination.
#[derive(Clone, PartialEq, Eq, Debug)]
pub enum Flushed {
    /// Nothing.
    Nothing,
    /// Lines to write to the log file, each ending in a newline.
    ToFile(Vec<Vec<u8>>),
    /// Lines to replay into the system log.
    ToSyslog(Vec<Vec<u8>>),
}

/// The hibernate logger's state: where lines go and the lines held in memory.
pub struct Hiberlog {
    pending: Vec<Vec<u8>>,
    to_kmsg: bool,
    out: HiberlogOut,
}

/// The non-empty lines of `ls`, in order.
pub open spec fn non_empty(ls: Seq<Seq<u8>>) -> Seq<Seq<u8>>
    decreases ls.len(),
{
    if ls.len() == 0 {
        Seq::empty()
    } else if ls.last().len() == 0 {
        non_empty(ls.drop_last())
    } else {
        non_empty(ls.drop_last()).push(ls.last())
    }
}

impl Hiberlog {
    /// The lines held in memory.
    pub closed spec fn pending(&self) -> Seq<Seq<u8>> {
        self.pending@.map_values(|l: Vec<u8>| l@)
    }

    /// Whether lines also go to the kernel log.
    pub closed spec fn spec_to_kmsg(&self) -> bool {
        self.to_kmsg
    }

    /// Where lines go.
    pub closed spec fn spec_out(&self) -> HiberlogOut {
        self.out
    }

    /// A logger that forwards to the system logger and holds nothing.
    pub fn new() -> (r: Hiberlog)
        ensures
            r.pending() == Seq::<Seq<u8>>::empty(),
            !r.spec_to_kmsg(),
            r.spec_out() == HiberlogOut::Syslog,
    {
        let r = Hiberlog { pending: Vec::new(), to_kmsg: false, out: HiberlogOut::Syslog };
        assert(r.pending() =~= Seq::<Seq<u8>>::empty());
        r
    }

    /// Routes one formatted line. A line longer than `MAX_LINE` bytes is
    /// dropped. Lines for the system logger are forwarded and nothing else;
    /// otherwise the line also goes to the kernel log while a file is the
    /// destination, and is written to the file or else kept in memory.
    pub fn route_line(&mut self, line: Vec<u8>) -> (r: LineRoute)
        ensures
            final(self).spec_out() == old(self).spec_out(),
            final(self).spec_to_kmsg() == old(self).spec_to_kmsg(),
            line@.len() > MAX_LINE ==> r == (LineRoute { to_syslog: false, to_kmsg: false, to_file: false })
                && final(self).pending() == old(self).pending(),
            line@.len() <= MAX_LINE ==> {
                &&& r.to_syslog == (old(self).spec_out() == HiberlogOut::Syslog)
                &&& r.to_kmsg == (old(self).spec_out() != HiberlogOut::Syslog && old(self).spec_to_kmsg())
                &&& r.to_file == (old(self).spec_out() == HiberlogOut::File)
                &&& final(self).pending() == if old(self).spec_out() == HiberlogOut::BufferInMemory {
                    old(self).pending().push(line@)
                } else {
                    old(self).pending()
                }
            },
    {
        if line.len() > MAX_LINE {
            return LineRoute { to_syslog: false, to_kmsg: false, to_file: false };
        }
        match self.out {
            HiberlogOut::Syslog => LineRoute { to_syslog: true, to_kmsg: false, to_file: false },
            HiberlogOut::File => LineRoute { to_syslog: false, to_kmsg: self.to_kmsg, to_file: true },
            HiberlogOut::BufferInMemory => {
                let ghost before = self.pending();
                let ghost l = line@;
                self.pending.push(line);
                assert(self.pending() =~= before.push(l));
                LineRoute { to_syslog: false, to_kmsg: self.to_kmsg, to_file: false }
            },
        }
    }

    /// Discards the lines held in memory.
    pub fn reset(&mut self)
        ensures
            final(self).pending() == Seq::<Seq<u8>>::empty(),
            final(self).spec_out() == old(self).spec_out(),
            final(self).spec_to_kmsg() == old(self).spec_to_kmsg(),
    {
        self.pending = Vec::new();
        assert(self.pending() =~= Seq::<Seq<u8>>::empty());
    }
}

/// Lines with a newline appended to each.
pub open spec fn with_newlines(ls: Seq<Seq<u8>>) -> Seq<Seq<u8>> {
    ls.map_values(|l: Seq<u8>| l.push(10u8))
}

/// The non-empty lines of `ls`.
fn non_empty_lines(ls: &Vec<Vec<u8>>, newline: bool) -> (r: Vec<Vec<u8>>)
    ensures
        !newline ==> r@.map_values(|l: Vec<u8>| l@) == non_empty(ls@.map_values(|l: Vec<u8>| l@)),
        newline ==> r@.map_values(|l: Vec<u8>| l@) == with_newlines(
            non_empty(ls@.map_values(|l: Vec<u8>| l@)),
        ),
{
    let ghost all = ls@.map_values(|l: Vec<u8>| l@);
    let mut r: Vec<Vec<u8>> = Vec::new();
    let mut i: usize = 0;
    while i < ls.len()
        invariant
            i <= ls@.len(),
            all == ls@.map_values(|l: Vec<u8>| l@),
            !newline ==> r@.map_values(|l: Vec<u8>| l@) == non_empty(all.take(i as int)),
            newline ==> r@.map_values(|l: Vec<u8>| l@) == with_newlines(non_empty(all.take(i as int))),
        decreases ls@.len() - i,
    {
        assert(all.take(i + 1).drop_last() =~= all.take(i as int));
        assert(all.take(i + 1).last() == ls@[i as int]@);
        if ls[i].len() > 0 {
            let mut line = vstd::slice::slice_to_vec(ls[i].as_slice());
            if newline {
                line.push(10u8);
            }
            let ghost before = r@.map_values(|l: Vec<u8>| l@);
            let ghost lv = line@;
            r.push(line);
            assert(r@.map_values(|l: Vec<u8>| l@) =~= before.push(lv));
            proof {
                if newline {
                    assert(with_newlines(non_empty(all.take(i + 1))) =~= with_newlines(
                        non_empty(all.take(i as int)),
                    ).push(ls@[i as int]@.push(10u8)));
                }
            }
        }
        i = i + 1;
    }
    assert(all.take(i as int) =~= all);
    r
}

/// Diverts the log to `out` and flushes what was held: while the log was
/// kept in memory, its non-empty lines go to the new destination (to a file
/// each with a newline; nothing moves when the log stays in memory), and
/// the memory is then cleared. Lines also go to the kernel log exactly while
/// a file is the destination.
pub fn redirect_log(state: &mut Hiberlog, out: HiberlogOut) -> (r: Flushed)
    ensures
        final(state).spec_out() == out,
        final(state).spec_to_kmsg() == (out == HiberlogOut::File),
        out == HiberlogOut::BufferInMemory ==> r == Flushed::Nothing && final(state).pending()
            == old(state).pending(),
        out == HiberlogOut::File && old(state).pending().len() == 0 ==> r == Flushed::Nothing
            && final(state).pending() == old(state).pending(),
        out == HiberlogOut::File && old(state).pending().len() > 0 ==> (r matches Flushed::ToFile(v)
            && v@.map_values(|l: Vec<u8>| l@) == with_newlines(non_empty(old(state).pending())))
            && final(state).pending().len() == 0,
        out == HiberlogOut::Syslog ==> (r matches Flushed::ToSyslog(v) && v@.map_values(
            |l: Vec<u8>| l@,
        ) == non_empty(old(state).pending())) && final(state).pending().len() == 0,
{
    state.to_kmsg = match out {
        HiberlogOut::File => true,
        _ => false,
    };
    state.out = out;
    match out {
        HiberlogOut::File => {
            if state.pending.len() == 0 {
                return Flushed::Nothing;
            }
            let lines = non_empty_lines(&state.pending, true);
            state.reset();
            Flushed::ToFile(lines)
        },
        HiberlogOut::Syslog => {
            let lines = non_empty_lines(&state.pending, false);
            state.reset();
            Flushed::ToSyslog(lines)
        },
        HiberlogOut::BufferInMemory => Flushed::Nothing,
    }
}

/// Discards any buffered but unsent log lines.
pub fn reset_log(state: &mut Hiberlog)
    ensures
        final(state).pending() == Seq::<Seq<u8>>::empty(),
        final(state).spec_out() == old(state).spec_out(),
        final(state).spec_to_kmsg() == old(state).spec_to_kmsg(),
{
    state.reset();
}

} // verus!
