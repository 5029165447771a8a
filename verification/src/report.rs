//! The subvolume report parser.
//!
//! A report is a sequence of lines.  A line containing a colon is a
//! `property: value` pair (both sides trimmed); a line without one is a bare
//! entry.  Bare lines count as snapshot paths exactly while the scan is
//! inside the snapshot-list region, which is entered by any property whose
//! label contains the word `Snapshot` and left again by the next property
//! that is none of the recognised ones.  The whole pass is modelled by the
//! spec functions [`split_lines`], [`scan_step`], [`scan_lines`] and
//! [`parse_model`], and [`parse_report`] is proved to return exactly what
//! that model says.

use vstd::prelude::*;

use crate::text::{
    before_char, contains_seq, find_char_from, lemma_before_char_bounds, lemma_before_char_is,
    lemma_trim_after_space, lemma_trimmed_of_clean, str_contains, str_eq, trim_str, trimmed,
};
use crate::time::{creation_time_of, parse_creation_time};

verus! {

/// Whether the scan is currently inside the snapshot-list region.
#[derive(Clone, Copy, PartialEq, Eq, Structural, Debug)]
pub enum CaptureMode {
    /// Outside the region: bare lines are ignored.
    Idle,
    /// Inside the region: bare lines are snapshot entries.
    Capturing,
}

/// Mathematical image of a [`Subvolume`].
#[verifier::ext_equal]
pub struct SubvolumeView {
    pub name: Seq<char>,
    pub uuid: Seq<char>,
    pub creation_time: i64,
    pub snapshots: Seq<Seq<char>>,
}

/// One filesystem subvolume as reported by the underlying tool: display
/// name, stable identifier, creation time (seconds since the Unix epoch of
/// the civil time in the report, see [`crate::time::creation_time_of`]) and
/// the relative paths of its child snapshots in report order.
#[derive(Debug, PartialEq)]
pub struct Subvolume {
    pub name: String,
    pub uuid: String,
    pub creation_time: i64,
    pub snapshots: Vec<String>,
}

impl View for Subvolume {
    type V = SubvolumeView;

    open spec fn view(&self) -> SubvolumeView {
        SubvolumeView {
            name: self.name@,
            uuid: self.uuid@,
            creation_time: self.creation_time,
            snapshots: self.snapshots.deep_view(),
        }
    }
}

/// How the parser reacts to one line.
pub enum LineClass {
    /// `Name: value` — sets the display name.
    NameProp(Seq<char>),
    /// `UUID: value` — sets the identifier.
    UuidProp(Seq<char>),
    /// `Creation time: value` — must parse under the fixed format.
    CreationProp(Seq<char>),
    /// A property whose label contains `Snapshot`: opens the list region.
    SnapshotHeader,
    /// Any other property: closes the list region.
    OtherProp,
    /// A line without a colon, already trimmed.
    Bare(Seq<char>),
}

/// Classifies one raw line, mirroring the trimming the parser performs.
pub open spec fn classify_line(line: Seq<char>) -> LineClass {
    let ci = before_char(line, ':');
    if ci < line.len() {
        let label = trimmed(line.subrange(0, ci));
        let value = trimmed(line.subrange(ci + 1, line.len() as int));
        if label == "Name"@ {
            LineClass::NameProp(value)
        } else if label == "UUID"@ {
            LineClass::UuidProp(value)
        } else if label == "Creation time"@ {
            LineClass::CreationProp(value)
        } else if contains_seq(label, "Snapshot"@) {
            LineClass::SnapshotHeader
        } else {
            LineClass::OtherProp
        }
    } else {
        LineClass::Bare(trimmed(line))
    }
}

/// The parser's accumulated knowledge midway through a report.
#[verifier::ext_equal]
pub struct ScanState {
    pub name: Option<Seq<char>>,
    pub uuid: Option<Seq<char>>,
    pub creation_time: Option<i64>,
    pub snapshots: Seq<Seq<char>>,
    pub mode: CaptureMode,
}

/// The state before any line has been read.
pub open spec fn initial_scan_state() -> ScanState {
    ScanState {
        name: None,
        uuid: None,
        creation_time: None,
        snapshots: Seq::empty(),
        mode: CaptureMode::Idle,
    }
}

/// One transition of the scan; `Err` carries the value of a `Creation time`
/// property that does not parse.
pub open spec fn scan_step(st: ScanState, line: Seq<char>) -> Result<ScanState, Seq<char>> {
    match classify_line(line) {
        LineClass::NameProp(v) => Ok(ScanState { name: Some(v), ..st }),
        LineClass::UuidProp(v) => Ok(ScanState { uuid: Some(v), ..st }),
        LineClass::CreationProp(v) => match creation_time_of(v) {
            Some(t) => Ok(ScanState { creation_time: Some(t), ..st }),
            None => Err(v),
        },
        LineClass::SnapshotHeader => Ok(ScanState { mode: CaptureMode::Capturing, ..st }),
        LineClass::OtherProp => Ok(ScanState { mode: CaptureMode::Idle, ..st }),
        LineClass::Bare(entry) => if st.mode is Capturing && entry.len() > 0 {
            Ok(ScanState { snapshots: st.snapshots.push(entry), ..st })
        } else {
            Ok(st)
        },
    }
}

/// Folds [`scan_step`] over a sequence of lines, stopping at the first
/// failing `Creation time` property.
pub open spec fn scan_lines(st: ScanState, lines: Seq<Seq<char>>) -> Result<ScanState, Seq<char>>
    decreases lines.len(),
{
    if lines.len() == 0 {
        Ok(st)
    } else {
        match scan_step(st, lines[0]) {
            Ok(st2) => scan_lines(st2, lines.drop_first()),
            Err(v) => Err(v),
        }
    }
}

/// Splits a report at every newline character; the terminator is optional,
/// and a trailing `\r` is absorbed later by trimming.
pub open spec fn split_lines(s: Seq<char>) -> Seq<Seq<char>>
    decreases s.len(),
    via split_lines_decreases
{
    let i = before_char(s, '\n');
    if 0 <= i < s.len() {
        seq![s.subrange(0, i)] + split_lines(s.subrange(i + 1, s.len() as int))
    } else {
        seq![s]
    }
}

#[via_fn]
proof fn split_lines_decreases(s: Seq<char>) {
    lemma_before_char_bounds(s, '\n');
}

/// What parsing a whole report yields.
pub enum ParseModel {
    /// All three required fields were present and well-formed.
    Parsed(SubvolumeView),
    /// A `Creation time` property held this unparsable value.
    BadCreationTime(Seq<char>),
    /// The scan finished but a required field never appeared; each flag is
    /// true exactly if that field is missing.
    MissingFields { name: bool, uuid: bool, creation_time: bool },
}

/// Final validation: all required fields must have been seen.
pub open spec fn finish_scan(st: ScanState) -> ParseModel {
    if st.name is Some && st.uuid is Some && st.creation_time is Some {
        ParseModel::Parsed(
            SubvolumeView {
                name: st.name.unwrap(),
                uuid: st.uuid.unwrap(),
                creation_time: st.creation_time.unwrap(),
                snapshots: st.snapshots,
            },
        )
    } else {
        ParseModel::MissingFields {
            name: st.name is None,
            uuid: st.uuid is None,
            creation_time: st.creation_time is None,
        }
    }
}

/// The complete mathematical model of [`parse_report`].
pub open spec fn parse_model(text: Seq<char>) -> ParseModel {
    match scan_lines(initial_scan_state(), split_lines(text)) {
        Ok(st) => finish_scan(st),
        Err(v) => ParseModel::BadCreationTime(v),
    }
}

/// Why a report failed to parse.
#[derive(Debug)]
pub enum ReportError {
    /// The `Creation time` property held `value`, which `chrono` rejected
    /// with `cause`; no default timestamp is ever substituted.
    CreationTimeUnparsable { value: String, cause: chrono::ParseError },
    /// A required field never appeared; each flag is true exactly if that
    /// field is missing.
    MissingFields { name: bool, uuid: bool, creation_time: bool },
}

/// Partial record accumulated while scanning; finalised by
/// [`SubvolumeBuilder::finish`].
pub struct SubvolumeBuilder {
    name: Option<String>,
    uuid: Option<String>,
    creation_time: Option<i64>,
    snapshots: Vec<String>,
    mode: CaptureMode,
}

impl View for SubvolumeBuilder {
    type V = ScanState;

    closed spec fn view(&self) -> ScanState {
        ScanState {
            name: self.name.deep_view(),
            uuid: self.uuid.deep_view(),
            creation_time: self.creation_time,
            snapshots: self.snapshots.deep_view(),
            mode: self.mode,
        }
    }
}

impl SubvolumeBuilder {
    /// An empty builder, about to read the first line.
    pub fn new() -> (r: Self)
        ensures
            r@ == initial_scan_state(),
    {
        let r = SubvolumeBuilder {
            name: None,
            uuid: None,
            creation_time: None,
            snapshots: Vec::new(),
            mode: CaptureMode::Idle,
        };
        proof {
            assert(r@ =~= initial_scan_state());
        }
        r
    }

    /// Feeds one raw line to the scan.
    pub fn apply_line(&mut self, line: &str) -> (r: Result<(), ReportError>)
        ensures
            match scan_step(old(self)@, line@) {
                Ok(st) => r is Ok && final(self)@ == st,
                Err(v) => r matches Err(ReportError::CreationTimeUnparsable { value, cause })
                    && value@ == v,
            },
    {
        let n = line.unicode_len();
        let ci = find_char_from(line, 0, ':');
        proof {
            lemma_before_char_is(line@, ':', ci as int);
        }
        if ci < n {
            let label = trim_str(line.substring_char(0, ci));
            let value = trim_str(line.substring_char(ci + 1, n));
            if str_eq(label, "Name") {
                self.name = Some(String::from_str(value));
                proof {
                    assert(self@ =~= (match scan_step(old(self)@, line@) {
                        Ok(st) => st,
                        Err(_) => self@,
                    }));
                }
            } else if str_eq(label, "UUID") {
                self.uuid = Some(String::from_str(value));
                proof {
                    assert(self@ =~= (match scan_step(old(self)@, line@) {
                        Ok(st) => st,
                        Err(_) => self@,
                    }));
                }
            } else if str_eq(label, "Creation time") {
                match parse_creation_time(value) {
                    Ok(t) => {
                        self.creation_time = Some(t);
                        proof {
                            assert(self@ =~= (match scan_step(old(self)@, line@) {
                                Ok(st) => st,
                                Err(_) => self@,
                            }));
                        }
                    },
                    Err(cause) => {
                        return Err(
                            ReportError::CreationTimeUnparsable {
                                value: String::from_str(value),
                                cause,
                            },
                        );
                    },
                }
            } else if str_contains(label, "Snapshot") {
                self.mode = CaptureMode::Capturing;
                proof {
                    assert(self@ =~= (match scan_step(old(self)@, line@) {
                        Ok(st) => st,
                        Err(_) => self@,
                    }));
                }
            } else {
                self.mode = CaptureMode::Idle;
                proof {
                    assert(self@ =~= (match scan_step(old(self)@, line@) {
                        Ok(st) => st,
                        Err(_) => self@,
                    }));
                }
            }
            Ok(())
        } else {
            let entry = trim_str(line);
            let capturing = match self.mode {
                CaptureMode::Capturing => true,
                CaptureMode::Idle => false,
            };
            if capturing && entry.unicode_len() > 0 {
                self.snapshots.push(String::from_str(entry));
                proof {
                    assert(self.snapshots.deep_view() =~= old(self).snapshots.deep_view().push(
                        entry@,
                    ));
                    assert(self@ =~= (match scan_step(old(self)@, line@) {
                        Ok(st) => st,
                        Err(_) => self@,
                    }));
                }
            }
            Ok(())
        }
    }

    /// Validates that all required fields were seen and builds the record.
    pub fn finish(self) -> (r: Result<Subvolume, ReportError>)
        ensures
            match finish_scan(self@) {
                ParseModel::Parsed(sv) => r matches Ok(s) && s@ == sv,
                ParseModel::MissingFields { name, uuid, creation_time } => r matches Err(
                    ReportError::MissingFields { name: n, uuid: u, creation_time: c },
                ) && n == name && u == uuid && c == creation_time,
                ParseModel::BadCreationTime(_) => false,
            },
    {
        match (self.name, self.uuid, self.creation_time) {
            (Some(name), Some(uuid), Some(creation_time)) => Ok(
                Subvolume { name, uuid, creation_time, snapshots: self.snapshots },
            ),
            (name, uuid, creation_time) => Err(
                ReportError::MissingFields {
                    name: name.is_none(),
                    uuid: uuid.is_none(),
                    creation_time: creation_time.is_none(),
                },
            ),
        }
    }
}

/// Parses the raw textual report of a single subvolume into a structured
/// [`Subvolume`]; the result is exactly [`parse_model`] of the input.
pub fn parse_report(input: &str) -> (r: Result<Subvolume, ReportError>)
    ensures
        match parse_model(input@) {
            ParseModel::Parsed(sv) => r matches Ok(s) && s@ == sv,
            ParseModel::BadCreationTime(v) => r matches Err(
                ReportError::CreationTimeUnparsable { value, cause },
            ) && value@ == v,
            ParseModel::MissingFields { name, uuid, creation_time } => r matches Err(
                ReportError::MissingFields { name: n, uuid: u, creation_time: c },
            ) && n == name && u == uuid && c == creation_time,
        },
{
    let n = input.unicode_len();
    let mut builder = SubvolumeBuilder::new();
    let mut pos: usize = 0;
    proof {
        assert(input@.subrange(0, n as int) =~= input@);
    }
    loop
        invariant_except_break
            scan_lines(initial_scan_state(), split_lines(input@)) == scan_lines(
                builder@,
                split_lines(input@.subrange(pos as int, n as int)),
            ),
        invariant
            0 <= pos <= n,
            n == input@.len(),
        ensures
            scan_lines(initial_scan_state(), split_lines(input@)) == Ok::<ScanState, Seq<char>>(
                builder@,
            ),
        decreases n - pos,
    {
        let stop = find_char_from(input, pos, '\n');
        let line = input.substring_char(pos, stop);
        proof {
            let rest = input@.subrange(pos as int, n as int);
            assert forall|j: int| 0 <= j < stop - pos implies rest[j] != '\n' by {
                assert(rest[j] == input@[pos + j]);
            }
            if stop < n {
                assert(rest[stop - pos] == input@[stop as int]);
            }
            lemma_before_char_is(rest, '\n', stop - pos);
            assert(line@ =~= rest.subrange(0, stop - pos));
        }
        let ghost pre = builder@;
        match builder.apply_line(line) {
            Ok(()) => {},
            Err(e) => {
                return Err(e);
            },
        }
        if stop == n {
            proof {
                let rest = input@.subrange(pos as int, n as int);
                assert(split_lines(rest) =~= seq![line@]);
                assert(scan_step(pre, line@) == Ok::<ScanState, Seq<char>>(builder@));
                assert(split_lines(rest).drop_first() =~= Seq::<Seq<char>>::empty());
                assert(scan_lines(builder@, split_lines(rest).drop_first())
                    == Ok::<ScanState, Seq<char>>(builder@));
                assert(scan_lines(pre, split_lines(rest)) == Ok::<ScanState, Seq<char>>(builder@));
            }
            break;
        }
        proof {
            let rest = input@.subrange(pos as int, n as int);
            let tail = rest.subrange(stop - pos + 1, rest.len() as int);
            assert(split_lines(rest)[0] == line@);
            assert(split_lines(rest).drop_first() =~= split_lines(tail));
            assert(scan_step(pre, line@) == Ok::<ScanState, Seq<char>>(builder@));
            assert(scan_lines(pre, split_lines(rest)) == scan_lines(
                builder@,
                split_lines(tail),
            ));
            assert(tail =~= input@.subrange(stop as int + 1, n as int));
        }
        pos = stop + 1;
    }
    builder.finish()
}

/// Scanning a concatenation scans the first part, then the second from
/// wherever the first left off.
pub proof fn lemma_scan_lines_append(st: ScanState, a: Seq<Seq<char>>, b: Seq<Seq<char>>)
    ensures
        scan_lines(st, a + b) == (match scan_lines(st, a) {
            Ok(mid) => scan_lines(mid, b),
            Err(v) => Err(v),
        }),
    decreases a.len(),
{
    if a.len() == 0 {
        assert(a + b =~= b);
    } else {
        assert((a + b)[0] == a[0]);
        assert((a + b).drop_first() =~= a.drop_first() + b);
        match scan_step(st, a[0]) {
            Ok(st2) => {
                lemma_scan_lines_append(st2, a.drop_first(), b);
            },
            Err(_) => {},
        }
    }
}

/// Whether some line is a `Creation time` property whose value does not
/// parse under the fixed format.
pub open spec fn has_bad_creation_line(lines: Seq<Seq<char>>) -> bool {
    exists|i: int|
        {
            &&& 0 <= i < lines.len()
            &&& (#[trigger] classify_line(lines[i])) matches LineClass::CreationProp(v)
            &&& creation_time_of(v) is None
        }
}

/// A scan over lines containing a failing `Creation time` property always
/// fails, from any starting state.
pub proof fn lemma_bad_creation_scan_fails(st: ScanState, lines: Seq<Seq<char>>)
    requires
        has_bad_creation_line(lines),
    ensures
        scan_lines(st, lines) is Err,
    decreases lines.len(),
{
    let i = choose|i: int|
        {
            &&& 0 <= i < lines.len()
            &&& (#[trigger] classify_line(lines[i])) matches LineClass::CreationProp(v)
            &&& creation_time_of(v) is None
        };
    if i == 0 {
    } else {
        match scan_step(st, lines[0]) {
            Ok(st2) => {
                let rest = lines.drop_first();
                assert(rest[i - 1] == lines[i]);
                assert(has_bad_creation_line(rest));
                lemma_bad_creation_scan_fails(st2, rest);
            },
            Err(_) => {},
        }
    }
}

/// Law: a report with a `Creation time` line whose value uses an
/// unsupported format fails to parse; no default timestamp is ever
/// substituted for it.
pub proof fn lemma_bad_creation_time_fails(text: Seq<char>)
    ensures
        has_bad_creation_line(split_lines(text)) ==> parse_model(text)
            is BadCreationTime,
{
    if has_bad_creation_line(split_lines(text)) {
        lemma_bad_creation_scan_fails(initial_scan_state(), split_lines(text));
    }
}

/// While capturing, a run of non-empty bare lines appends exactly its
/// trimmed entries, in order, and touches nothing else.
pub proof fn lemma_capturing_bares(st: ScanState, bares: Seq<Seq<char>>)
    requires
        st.mode is Capturing,
        forall|i: int|
            0 <= i < bares.len() ==> {
                &&& (#[trigger] classify_line(bares[i])) matches LineClass::Bare(e)
                &&& e.len() > 0
            },
    ensures
        scan_lines(st, bares) == Ok::<ScanState, Seq<char>>(
            ScanState {
                snapshots: st.snapshots + Seq::new(bares.len(), |i: int| trimmed(bares[i])),
                ..st
            },
        ),
    decreases bares.len(),
{
    let entries = Seq::new(bares.len(), |i: int| trimmed(bares[i]));
    if bares.len() == 0 {
        assert(st.snapshots + entries =~= st.snapshots);
        assert(ScanState { snapshots: st.snapshots + entries, ..st } =~= st);
    } else {
        assert({
            &&& classify_line(bares[0]) matches LineClass::Bare(e)
            &&& e.len() > 0
        });
        let st2 = ScanState { snapshots: st.snapshots.push(trimmed(bares[0])), ..st };
        assert(scan_step(st, bares[0]) == Ok::<ScanState, Seq<char>>(st2));
        let rest = bares.drop_first();
        assert forall|i: int| 0 <= i < rest.len() implies {
            &&& (#[trigger] classify_line(rest[i])) matches LineClass::Bare(e)
            &&& e.len() > 0
        } by {
            assert(rest[i] == bares[i + 1]);
        }
        lemma_capturing_bares(st2, rest);
        let rest_entries = Seq::new(rest.len(), |i: int| trimmed(rest[i]));
        assert(st2.snapshots + rest_entries =~= st.snapshots + entries) by {
            assert forall|i: int| 0 <= i < rest.len() implies rest_entries[i] == entries[i + 1] by {
                assert(rest[i] == bares[i + 1]);
            }
        }
        assert(ScanState { snapshots: st2.snapshots + rest_entries, ..st2 } =~= ScanState {
            snapshots: st.snapshots + entries,
            ..st
        });
    }
}

/// Law: a snapshot-region header, then a run of non-empty bare lines, then
/// any other property line yield exactly those bare lines — trimmed, in
/// their original order — as snapshot entries, and close the region again.
pub proof fn lemma_snapshot_region(
    st: ScanState,
    header: Seq<char>,
    bares: Seq<Seq<char>>,
    closer: Seq<char>,
)
    requires
        classify_line(header) is SnapshotHeader,
        forall|i: int|
            0 <= i < bares.len() ==> {
                &&& (#[trigger] classify_line(bares[i])) matches LineClass::Bare(e)
                &&& e.len() > 0
            },
        classify_line(closer) is OtherProp,
    ensures
        scan_lines(st, seq![header] + bares + seq![closer]) == Ok::<ScanState, Seq<char>>(
            ScanState {
                snapshots: st.snapshots + Seq::new(bares.len(), |i: int| trimmed(bares[i])),
                mode: CaptureMode::Idle,
                ..st
            },
        ),
{
    let st1 = ScanState { mode: CaptureMode::Capturing, ..st };
    assert(scan_step(st, header) == Ok::<ScanState, Seq<char>>(st1));
    lemma_capturing_bares(st1, bares);
    let st2 = ScanState {
        snapshots: st1.snapshots + Seq::new(bares.len(), |i: int| trimmed(bares[i])),
        ..st1
    };
    let st3 = ScanState { mode: CaptureMode::Idle, ..st2 };
    assert(scan_step(st2, closer) == Ok::<ScanState, Seq<char>>(st3));
    let lines = seq![header] + bares + seq![closer];
    assert(lines[0] == header);
    assert(lines.drop_first() =~= bares + seq![closer]);
    lemma_scan_lines_append(st1, bares, seq![closer]);
    assert(scan_lines(st2, seq![closer]) == Ok::<ScanState, Seq<char>>(st3)) by {
        assert(seq![closer][0] == closer);
        assert(seq![closer].drop_first() =~= Seq::<Seq<char>>::empty());
        assert(scan_lines(st3, Seq::<Seq<char>>::empty()) == Ok::<ScanState, Seq<char>>(st3));
        assert(scan_lines(st2, seq![closer]) == scan_lines(st3, seq![closer].drop_first()));
    }
    assert(st3 =~= ScanState {
        snapshots: st.snapshots + Seq::new(bares.len(), |i: int| trimmed(bares[i])),
        mode: CaptureMode::Idle,
        ..st
    });
}

/// The canonical three-line rendering of the scalar fields.
pub open spec fn spec_render(name: Seq<char>, uuid: Seq<char>, creation: Seq<char>) -> Seq<char> {
    "Name: "@ + name + "\n"@ + "UUID: "@ + uuid + "\n"@ + "Creation time: "@ + creation
}

/// Writes the three scalar fields back into report form, one property line
/// each.
pub fn render_report(name: &str, uuid: &str, creation: &str) -> (r: String)
    ensures
        r@ == spec_render(name@, uuid@, creation@),
{
    let mut out = String::new();
    out.append("Name: ");
    out.append(name);
    out.append("\n");
    out.append("UUID: ");
    out.append(uuid);
    out.append("\n");
    out.append("Creation time: ");
    out.append(creation);
    proof {
        assert(out@ =~= spec_render(name@, uuid@, creation@));
    }
    out
}

/// A concatenation holds `c` only if one of its parts does.
pub proof fn lemma_concat_not_contains(a: Seq<char>, b: Seq<char>, c: char)
    requires
        !a.contains(c),
        !b.contains(c),
    ensures
        !(a + b).contains(c),
{
    if (a + b).contains(c) {
        let j = choose|j: int| 0 <= j < (a + b).len() && (a + b)[j] == c;
        if j < a.len() {
            assert(a[j] == c);
        } else {
            assert(b[j - a.len()] == c);
        }
    }
}

/// Splitting text that starts with a newline-free line takes that line off
/// the front.
pub proof fn lemma_split_lines_prefix(line: Seq<char>, rest: Seq<char>)
    requires
        !line.contains('\n'),
    ensures
        split_lines(line + seq!['\n'] + rest) == seq![line] + split_lines(rest),
{
    let s = line + seq!['\n'] + rest;
    assert forall|j: int| 0 <= j < line.len() implies s[j] != '\n' by {
        assert(s[j] == line[j]);
    }
    assert(s[line.len() as int] == '\n');
    lemma_before_char_is(s, '\n', line.len() as int);
    assert(s.subrange(0, line.len() as int) =~= line);
    assert(s.subrange(line.len() as int + 1, s.len() as int) =~= rest);
}

/// Text without a newline is a single line.
pub proof fn lemma_split_lines_single(line: Seq<char>)
    requires
        !line.contains('\n'),
    ensures
        split_lines(line) == seq![line],
{
    assert forall|j: int| 0 <= j < line.len() implies line[j] != '\n' by {}
    lemma_before_char_is(line, '\n', line.len() as int);
}

/// A line of the form `label: value` — trim-stable colon-free label,
/// trim-stable value — splits at that colon and trims back into its parts.
pub proof fn lemma_classify_labeled(label: Seq<char>, value: Seq<char>)
    requires
        !label.contains(':'),
        trimmed(label) == label,
        trimmed(value) == value,
    ensures
        before_char(label + seq![':', ' '] + value, ':') == label.len(),
        trimmed((label + seq![':', ' '] + value).subrange(0, label.len() as int)) == label,
        trimmed(
            (label + seq![':', ' '] + value).subrange(
                label.len() as int + 1,
                (label + seq![':', ' '] + value).len() as int,
            ),
        ) == value,
{
    let line = label + seq![':', ' '] + value;
    assert forall|j: int| 0 <= j < label.len() implies line[j] != ':' by {
        assert(line[j] == label[j]);
    }
    assert(line[label.len() as int] == ':');
    lemma_before_char_is(line, ':', label.len() as int);
    assert(line.subrange(0, label.len() as int) =~= label);
    assert(line.subrange(label.len() as int + 1, line.len() as int) =~= seq![' '] + value);
    lemma_trim_after_space(value);
}

/// Law: parsing a rendered report reproduces the three scalar fields
/// verbatim — the parser is injective over the fields it recognises — and
/// when the creation-time text denotes no date-time the parse fails
/// carrying exactly that text.
pub proof fn lemma_render_round_trip(name: Seq<char>, uuid: Seq<char>, creation: Seq<char>)
    requires
        trimmed(name) == name,
        !name.contains('\n'),
        trimmed(uuid) == uuid,
        !uuid.contains('\n'),
        trimmed(creation) == creation,
        !creation.contains('\n'),
    ensures
        creation_time_of(creation) matches Some(t) ==> parse_model(
            spec_render(name, uuid, creation),
        ) == ParseModel::Parsed(
            SubvolumeView { name, uuid, creation_time: t, snapshots: Seq::empty() },
        ),
        creation_time_of(creation) is None ==> parse_model(spec_render(name, uuid, creation))
            == ParseModel::BadCreationTime(creation),
{
    reveal_strlit("Name: ");
    reveal_strlit("Name");
    reveal_strlit("UUID: ");
    reveal_strlit("UUID");
    reveal_strlit("Creation time: ");
    reveal_strlit("Creation time");
    reveal_strlit("\n");
    let text = spec_render(name, uuid, creation);
    let line1 = "Name"@ + seq![':', ' '] + name;
    let line2 = "UUID"@ + seq![':', ' '] + uuid;
    let line3 = "Creation time"@ + seq![':', ' '] + creation;
    assert(text =~= line1 + seq!['\n'] + (line2 + seq!['\n'] + line3));

    // The rendered text splits into exactly the three property lines.
    assert(!"Name"@.contains('\n'));
    assert(!"UUID"@.contains('\n'));
    assert(!"Creation time"@.contains('\n'));
    assert(!seq![':', ' '].contains('\n'));
    lemma_concat_not_contains("Name"@, seq![':', ' '], '\n');
    lemma_concat_not_contains("Name"@ + seq![':', ' '], name, '\n');
    lemma_concat_not_contains("UUID"@, seq![':', ' '], '\n');
    lemma_concat_not_contains("UUID"@ + seq![':', ' '], uuid, '\n');
    lemma_concat_not_contains("Creation time"@, seq![':', ' '], '\n');
    lemma_concat_not_contains("Creation time"@ + seq![':', ' '], creation, '\n');
    assert(line1 =~= ("Name"@ + seq![':', ' ']) + name);
    assert(line2 =~= ("UUID"@ + seq![':', ' ']) + uuid);
    assert(line3 =~= ("Creation time"@ + seq![':', ' ']) + creation);
    lemma_split_lines_prefix(line1, line2 + seq!['\n'] + line3);
    lemma_split_lines_prefix(line2, line3);
    lemma_split_lines_single(line3);
    assert(split_lines(text) =~= seq![line1, line2, line3]);

    // Each line classifies as the property it was rendered as.
    assert(!"Name"@.contains(':'));
    assert(!"UUID"@.contains(':'));
    assert(!"Creation time"@.contains(':'));
    lemma_trimmed_of_clean("Name"@);
    lemma_trimmed_of_clean("UUID"@);
    lemma_trimmed_of_clean("Creation time"@);
    lemma_classify_labeled("Name"@, name);
    lemma_classify_labeled("UUID"@, uuid);
    lemma_classify_labeled("Creation time"@, creation);
    assert("UUID"@ != "Name"@) by {
        assert("UUID"@[0] == 'U' && "Name"@[0] == 'N');
    }
    assert("Creation time"@ != "Name"@ && "Creation time"@ != "UUID"@) by {
        assert("Creation time"@.len() == 13);
    }
    assert(classify_line(line1) == LineClass::NameProp(name));
    assert(classify_line(line2) == LineClass::UuidProp(uuid));
    assert(classify_line(line3) == LineClass::CreationProp(creation));

    // Run the scan over the three lines.
    let st0 = initial_scan_state();
    let st1 = ScanState { name: Some(name), ..st0 };
    let st2 = ScanState { uuid: Some(uuid), ..st1 };
    let lines = seq![line1, line2, line3];
    assert(scan_step(st0, line1) == Ok::<ScanState, Seq<char>>(st1));
    assert(scan_step(st1, line2) == Ok::<ScanState, Seq<char>>(st2));
    assert(lines.drop_first() =~= seq![line2, line3]);
    assert(seq![line2, line3].drop_first() =~= seq![line3]);
    assert(seq![line3].drop_first() =~= Seq::<Seq<char>>::empty());
    match creation_time_of(creation) {
        Some(t) => {
            let st3 = ScanState { creation_time: Some(t), ..st2 };
            assert(scan_step(st2, line3) == Ok::<ScanState, Seq<char>>(st3));
            assert(scan_lines(st3, Seq::<Seq<char>>::empty()) == Ok::<ScanState, Seq<char>>(st3));
            assert(scan_lines(st2, seq![line3]) == Ok::<ScanState, Seq<char>>(st3));
            assert(scan_lines(st1, seq![line2, line3]) == scan_lines(st2, seq![line3]));
            assert(scan_lines(st0, lines) == scan_lines(st1, seq![line2, line3]));
            assert(scan_lines(st0, lines) == Ok::<ScanState, Seq<char>>(st3));
            assert(finish_scan(st3) == ParseModel::Parsed(
                SubvolumeView { name, uuid, creation_time: t, snapshots: Seq::empty() },
            )) by {
                assert(st3.snapshots =~= Seq::<Seq<char>>::empty());
            }
        },
        None => {
            assert(scan_step(st2, line3) == Err::<ScanState, Seq<char>>(creation));
            assert(scan_lines(st2, seq![line3]) == Err::<ScanState, Seq<char>>(creation));
            assert(scan_lines(st1, seq![line2, line3]) == scan_lines(st2, seq![line3]));
            assert(scan_lines(st0, lines) == scan_lines(st1, seq![line2, line3]));
            assert(scan_lines(st0, lines) == Err::<ScanState, Seq<char>>(creation));
        },
    }
}

} // verus!
