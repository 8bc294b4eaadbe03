//! ffmpeg's progress report, line by line.

use vstd::prelude::*;
use crate::text;

verus! {

/// How far an encode has come.
#[derive(Copy, Clone, Debug, PartialEq, Eq, Structural)]
pub enum Position {
    /// Nothing has been reported yet.
    Unknown,
    /// This many microseconds of the output are written.
    Micros(u64),
    /// The encode has ended.
    End,
}

/// A report on an encode. The rates are as ffmpeg writes them, that of the
/// speed without its `x`.
#[derive(Debug)]
pub struct ProgressInfo {
    pub position: Position,
    pub fps: Option<String>,
    pub speed: Option<String>,
}

/// A report as texts and numbers.
#[verifier::ext_equal]
pub struct Report {
    pub position: Position,
    pub fps: Option<Seq<char>>,
    pub speed: Option<Seq<char>>,
}

impl View for ProgressInfo {
    type V = Report;

    open spec fn view(&self) -> Report {
        Report {
            position: self.position,
            fps: text::opt_text(self.fps),
            speed: text::opt_text(self.speed),
        }
    }
}

impl Clone for ProgressInfo {
    fn clone(&self) -> (r: Self)
        ensures
            r@ == self@,
    {
        ProgressInfo {
            position: self.position,
            fps: text::copy_text(&self.fps),
            speed: text::copy_text(&self.speed),
        }
    }
}

/// What has been read so far of a progress report.
#[derive(Debug)]
pub struct ProgressReader {
    pub micros: u64,
    pub fps: Option<String>,
    pub speed: Option<String>,
}

/// What has been read so far, as texts and numbers.
#[verifier::ext_equal]
pub struct Readings {
    pub micros: u64,
    pub fps: Option<Seq<char>>,
    pub speed: Option<Seq<char>>,
}

impl View for ProgressReader {
    type V = Readings;

    open spec fn view(&self) -> Readings {
        Readings {
            micros: self.micros,
            fps: text::opt_text(self.fps),
            speed: text::opt_text(self.speed),
        }
    }
}

/// The readings before the first line.
pub open spec fn no_readings() -> Readings {
    Readings { micros: 0, fps: None, speed: None }
}

/// Whether a line is a key and a value with `=` between them.
pub open spec fn is_entry(line: Seq<char>) -> bool {
    text::next_at(line, '=', 0) < line.len()
}

/// What stands before the first `=`, without white space around it.
pub open spec fn key_of(line: Seq<char>) -> Seq<char> {
    text::trim(line.subrange(0, text::next_at(line, '=', 0)))
}

/// What stands behind the first `=`, without white space around it.
pub open spec fn value_of(line: Seq<char>) -> Seq<char> {
    text::trim(line.subrange(text::next_at(line, '=', 0) + 1, line.len() as int))
}

/// The readings after a line. ffmpeg's `out_time_ms` holds microseconds, as
/// `out_time_us` does; a negative time counts as zero, and one that is no
/// number changes nothing.
pub open spec fn readings_after(s: Readings, line: Seq<char>) -> Readings {
    let value = value_of(line);
    if !is_entry(line) {
        s
    } else if key_of(line) == "out_time_us"@ || key_of(line) == "out_time_ms"@ {
        match text::i64_of(value) {
            Some(us) => Readings {
                micros: if us < 0 {
                    0
                } else {
                    us as u64
                },
                ..s
            },
            None => s,
        }
    } else if key_of(line) == "fps"@ {
        Readings { fps: Some(value), ..s }
    } else if key_of(line) == "speed"@ {
        Readings {
            speed: if value.len() > 0 && value.last() == 'x' {
                Some(value.drop_last())
            } else {
                None
            },
            ..s
        }
    } else {
        s
    }
}

/// What a line makes known: each `progress` line ends a report.
pub open spec fn report_at(s: Readings, line: Seq<char>) -> Option<Report> {
    if is_entry(line) && key_of(line) == "progress"@ {
        Some(
            Report {
                position: if value_of(line) == "end"@ {
                    Position::End
                } else {
                    Position::Micros(s.micros)
                },
                fps: s.fps,
                speed: s.speed,
            },
        )
    } else {
        None
    }
}

/// The readings after the first `k` lines.
pub open spec fn readings_upto(lines: Seq<Seq<char>>, k: nat) -> Readings
    decreases k,
{
    if k == 0 {
        no_readings()
    } else {
        readings_after(readings_upto(lines, (k - 1) as nat), lines[k - 1])
    }
}

/// The reports among the first `k` lines.
pub open spec fn reports_upto(lines: Seq<Seq<char>>, k: nat) -> Seq<Report>
    decreases k,
{
    if k == 0 {
        Seq::empty()
    } else {
        let before = reports_upto(lines, (k - 1) as nat);
        match report_at(readings_upto(lines, (k - 1) as nat), lines[k - 1]) {
            Some(r) => before.push(r),
            None => before,
        }
    }
}

/// The reports of a list.
pub open spec fn report_views(v: Seq<ProgressInfo>) -> Seq<Report> {
    v.map_values(|p: ProgressInfo| p@)
}

impl ProgressReader {
    /// A reader before the first line.
    pub fn new() -> (r: Self)
        ensures
            r@ == no_readings(),
    {
        ProgressReader { micros: 0, fps: None, speed: None }
    }

    /// Reads one line, and returns the report that it ends, if it ends one.
    pub fn line(&mut self, line: &str) -> (r: Option<ProgressInfo>)
        ensures
            final(self)@ == readings_after(old(self)@, line@),
            match r {
                Some(p) => report_at(old(self)@, line@) == Some(p@),
                None => report_at(old(self)@, line@) is None,
            },
    {
        let chars = text::chars_of(line);
        let at: usize = text::find_next(&chars, '=', 0);
        if at == chars.len() {
            return None;
        }
        let key = text::trimmed(&chars, 0, at);
        let value = text::trimmed(&chars, at + 1, chars.len());
        let k: &str = key.as_str();
        proof {
            lemma_keys_differ();
        }
        if text::same(k, "out_time_us") || text::same(k, "out_time_ms") {
            match text::parse_i64(value.as_str()) {
                Some(us) => {
                    if us < 0 {
                        self.micros = 0;
                    } else {
                        self.micros = us as u64;
                    }
                },
                None => {},
            }
            None
        } else if text::same(k, "fps") {
            self.fps = Some(value);
            None
        } else if text::same(k, "speed") {
            let v = text::chars_of(value.as_str());
            if v.len() > 0 && v[v.len() - 1] == 'x' {
                let number = text::string_of(&v, 0, v.len() - 1);
                assert(number@ =~= value@.drop_last());
                self.speed = Some(number);
            } else {
                self.speed = None;
            }
            None
        } else if text::same(k, "progress") {
            let position = if text::same(value.as_str(), "end") {
                Position::End
            } else {
                Position::Micros(self.micros)
            };
            Some(
                ProgressInfo {
                    position,
                    fps: text::copy_text(&self.fps),
                    speed: text::copy_text(&self.speed),
                },
            )
        } else {
            None
        }
    }
}

/// The reports in ffmpeg's `-progress` output, given as its lines.
pub fn read_progress(lines: &[String]) -> (r: Vec<ProgressInfo>)
    ensures
        report_views(r@) == reports_upto(text::texts(lines@), lines@.len()),
{
    let ghost all = text::texts(lines@);
    let mut reader = ProgressReader::new();
    let mut out: Vec<ProgressInfo> = Vec::new();
    let mut i: usize = 0;
    assert(report_views(out@) =~= reports_upto(all, 0));
    while i < lines.len()
        invariant
            i <= lines@.len(),
            all == text::texts(lines@),
            reader@ == readings_upto(all, i as nat),
            report_views(out@) == reports_upto(all, i as nat),
        decreases lines@.len() - i,
    {
        assert(all[i as int] == lines@[i as int]@);
        match reader.line(lines[i].as_str()) {
            Some(p) => {
                let ghost before = out@;
                out.push(p);
                assert(report_views(out@) =~= report_views(before).push(p@));
            },
            None => {},
        }
        i += 1;
    }
    out
}

// -------------------------------------------------------------------- laws --

/// The keys that matter are different ones.
proof fn lemma_keys_differ()
    ensures
        "progress"@ != "out_time_us"@,
        "progress"@ != "out_time_ms"@,
        "progress"@ != "fps"@,
        "progress"@ != "speed"@,
{
    reveal_strlit("progress");
    reveal_strlit("out_time_us");
    reveal_strlit("out_time_ms");
    reveal_strlit("fps");
    reveal_strlit("speed");
    assert("progress"@.len() == 8);
    assert("out_time_us"@.len() == 11 && "out_time_ms"@.len() == 11);
    assert("fps"@.len() == 3 && "speed"@.len() == 5);
}

/// A line without `=`, or with an unknown key, changes nothing and reports
/// nothing.
pub proof fn law_other_lines_are_ignored(s: Readings, line: Seq<char>)
    requires
        !is_entry(line) || (key_of(line) != "out_time_us"@ && key_of(line) != "out_time_ms"@
            && key_of(line) != "fps"@ && key_of(line) != "speed"@ && key_of(line) != "progress"@),
    ensures
        readings_after(s, line) == s,
        report_at(s, line) is None,
{
}

/// A `progress` line reports and leaves the readings as they are.
pub proof fn law_reports_keep_readings(s: Readings, line: Seq<char>)
    requires
        is_entry(line),
        key_of(line) == "progress"@,
    ensures
        readings_after(s, line) == s,
        report_at(s, line) is Some,
{
    lemma_keys_differ();
}

/// A text that neither begins nor ends with white space.
pub open spec fn is_bare(s: Seq<char>) -> bool {
    s.len() > 0 && !text::is_space(s[0]) && !text::is_space(s.last())
}

proof fn lemma_entry(key: Seq<char>, value: Seq<char>)
    requires
        is_bare(key),
        is_bare(value),
        forall|i: int| 0 <= i < key.len() ==> #[trigger] key[i] != '=',
    ensures
        is_entry(key + "="@ + value),
        key_of(key + "="@ + value) == key,
        value_of(key + "="@ + value) == value,
{
    reveal_strlit("=");
    let line = key + "="@ + value;
    text::lemma_next_at_is(line, '=', 0, key.len() as int);
    assert(line.subrange(0, key.len() as int) =~= key);
    assert(line.subrange(key.len() as int + 1, line.len() as int) =~= value);
}

/// A line with the time that is written, in microseconds, is taken as it is,
/// under either of its names; a negative one counts as zero.
pub proof fn law_time_is_read_in_microseconds(s: Readings, key: Seq<char>, n: nat)
    requires
        key == "out_time_us"@ || key == "out_time_ms"@,
        n <= i64::MAX,
    ensures
        readings_after(s, key + "="@ + text::decimal(n)) == (Readings { micros: n as u64, ..s }),
        n > 0 ==> readings_after(s, key + "="@ + (seq!['-'] + text::decimal(n))) == (Readings {
            micros: 0,
            ..s
        }),
        report_at(s, key + "="@ + text::decimal(n)) is None,
{
    reveal_strlit("out_time_us");
    reveal_strlit("out_time_ms");
    lemma_keys_differ();
    let d = text::decimal(n);
    text::lemma_decimal_digits(n);
    assert(text::is_digit(d[0]) && text::is_digit(d[d.len() - 1]));
    lemma_entry(key, d);
    assert(text::unsigned_part(d) == d);
    let m = seq!['-'] + d;
    lemma_entry(key, m);
    assert(m.skip(1) =~= d);
    assert(m[m.len() - 1] == d[d.len() - 1]);
}

/// The frame rate is kept as it is written, the speed without the `x` behind it;
/// a speed without one is none.
pub proof fn law_rates_are_kept(s: Readings, value: Seq<char>)
    requires
        is_bare(value),
    ensures
        readings_after(s, "fps"@ + "="@ + value) == (Readings { fps: Some(value), ..s }),
        readings_after(s, "speed"@ + "="@ + value.push('x')) == (Readings {
            speed: Some(value),
            ..s
        }),
        value.last() != 'x' ==> readings_after(s, "speed"@ + "="@ + value) == (Readings {
            speed: None,
            ..s
        }),
{
    reveal_strlit("fps");
    reveal_strlit("speed");
    reveal_strlit("out_time_us");
    reveal_strlit("out_time_ms");
    assert("fps"@.len() == 3 && "speed"@.len() == 5 && "out_time_us"@.len() == 11
        && "out_time_ms"@.len() == 11);
    lemma_entry("fps"@, value);
    lemma_entry("speed"@, value);
    let x = value.push('x');
    assert(x[0] == value[0]);
    lemma_entry("speed"@, x);
    assert(x.drop_last() =~= value);
}

/// A report says what has been read: the end where ffmpeg says so, and else the
/// time that is written, with the rates as they stand.
pub proof fn law_reports_say_what_was_read(s: Readings, value: Seq<char>)
    requires
        is_bare(value),
    ensures
        report_at(s, "progress"@ + "="@ + value) == Some(
            Report {
                position: if value == "end"@ {
                    Position::End
                } else {
                    Position::Micros(s.micros)
                },
                fps: s.fps,
                speed: s.speed,
            },
        ),
{
    reveal_strlit("progress");
    lemma_entry("progress"@, value);
}

/// Nothing is known before the first line.
pub proof fn law_reading_begins_with_nothing(lines: Seq<Seq<char>>)
    ensures
        readings_upto(lines, 0) == (Readings { micros: 0, fps: None, speed: None }),
        reports_upto(lines, 0).len() == 0,
{
}

} // verus!
