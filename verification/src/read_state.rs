//! Which files have been read.
//!
//! A file is read when the modification time it had at the moment it was read is
//! recorded and is still the current one. It is unread without a record, or when
//! its time differs: it was created, or changed since. Times are whole seconds
//! since the Unix epoch; a file whose time cannot be told has none.

use vstd::prelude::*;
use crate::diff;
use crate::diff::split_lines;
use crate::numbers;
use crate::numbers::parse_within;
use crate::text;
use crate::text::{decimal_text, find_char, from_chars, to_chars};
use crate::textmap;
use crate::textmap::TextMap;
use crate::views;

verus! {

broadcast use crate::views::group_views;

/// A file and its current modification time, if that can be told.
#[derive(Debug)]
pub struct FileStamp {
    pub path: String,
    pub mtime: Option<u64>,
}

impl View for FileStamp {
    type V = (Seq<char>, Option<u64>);

    open spec fn view(&self) -> (Seq<char>, Option<u64>) {
        (self.path@, self.mtime)
    }
}

/// The recorded times, keyed by absolute path.
#[derive(Debug)]
pub struct ReadState {
    map: TextMap<u64>,
}

impl View for ReadState {
    type V = Map<Seq<char>, u64>;

    closed spec fn view(&self) -> Map<Seq<char>, u64> {
        self.map@
    }
}

/// Whether a file is unread. One that is recorded but whose time cannot be told
/// counts as read.
pub open spec fn unread(m: Map<Seq<char>, u64>, path: Seq<char>, mtime: Option<u64>) -> bool {
    if m.contains_key(path) {
        mtime matches Some(t) && t != m[path]
    } else {
        true
    }
}

/// The records after a file was read at its current time.
pub open spec fn marked(m: Map<Seq<char>, u64>, path: Seq<char>, mtime: Option<u64>) -> Map<
    Seq<char>,
    u64,
> {
    match mtime {
        Some(t) => m.insert(path, t),
        None => m,
    }
}

/// The records after the first `n` files were read.
pub open spec fn all_marked(
    m: Map<Seq<char>, u64>,
    files: Seq<(Seq<char>, Option<u64>)>,
    n: int,
) -> Map<Seq<char>, u64>
    decreases n,
{
    if n <= 0 {
        m
    } else {
        marked(all_marked(m, files, n - 1), files[n - 1].0, files[n - 1].1)
    }
}

/// `s` without its trailing carriage returns and newlines.
pub open spec fn trimmed_line(s: Seq<char>) -> Seq<char>
    decreases s.len(),
{
    if s.len() > 0 && (s.last() == '\r' || s.last() == '\n') {
        trimmed_line(s.drop_last())
    } else {
        s
    }
}

/// The record that a line of the state file holds: a time, a tab and a path.
pub open spec fn record_of(line: Seq<char>) -> Option<(Seq<char>, u64)> {
    let l = trimmed_line(line);
    match text::first_char(l, '\t', 0) {
        Some(k) => match numbers::value_within(l.take(k), u64::MAX) {
            Some(t) => Some((l.skip(k + 1), t as u64)),
            None => None,
        },
        None => None,
    }
}

/// The records of the first `n` lines; lines without a record are skipped.
pub open spec fn records(lines: Seq<Seq<char>>, n: int) -> Map<Seq<char>, u64>
    decreases n,
{
    if n <= 0 {
        Map::empty()
    } else {
        match record_of(lines[n - 1]) {
            Some((path, t)) => records(lines, n - 1).insert(path, t),
            None => records(lines, n - 1),
        }
    }
}

/// The records of a state file.
pub open spec fn file_records(t: Seq<char>) -> Map<Seq<char>, u64> {
    let lines = diff::lines_from(t, 0);
    records(lines, lines.len() as int)
}

/// The line of a record.
pub open spec fn record_line(path: Seq<char>, t: u64) -> Seq<char> {
    (text::decimal(t as nat).push('\t') + path).push('\n')
}

/// The state file that lists records from `i` on.
pub open spec fn file_text(list: Seq<(Seq<char>, u64)>, i: int) -> Seq<char>
    decreases list.len() - i,
{
    if i < 0 || i >= list.len() {
        Seq::empty()
    } else {
        record_line(list[i].0, list[i].1) + file_text(list, i + 1)
    }
}

fn parse_record(line: &str) -> (r: Option<(String, u64)>)
    ensures
        match r {
            Some((p, t)) => record_of(line@) == Some((p@, t)),
            None => record_of(line@) is None,
        },
{
    let cs = to_chars(line);
    let mut n: usize = cs.len();
    assert(cs@.take(n as int) =~= cs@);
    while n > 0 && (cs[n - 1] == '\r' || cs[n - 1] == '\n')
        invariant
            n <= cs@.len(),
            trimmed_line(cs@.take(n as int)) == trimmed_line(cs@),
        decreases n,
    {
        assert(cs@.take(n as int).drop_last() =~= cs@.take(n - 1));
        n = n - 1;
    }
    let l = vstd::slice::slice_subrange(&cs, 0, n);
    assert(l@ =~= cs@.take(n as int));
    assert(l@ == trimmed_line(cs@));
    match find_char(l, '\t', 0) {
        Some(k) => {
            let head = vstd::slice::slice_subrange(l, 0, k);
            assert(head@ =~= l@.take(k as int));
            match parse_within(head, u64::MAX) {
                Some(t) => {
                    assert(l@.subrange(k + 1, n as int) =~= l@.skip(k + 1));
                    Some((from_chars(l, k + 1, n), t))
                },
                None => None,
            }
        },
        None => None,
    }
}

impl ReadState {
    /// No file has been read.
    pub fn empty() -> (s: ReadState)
        ensures
            s@ == Map::<Seq<char>, u64>::empty(),
    {
        ReadState { map: TextMap::new() }
    }

    /// Reads a state file. Without one, which is the first run, every file that
    /// is there counts as read, so that only later changes show.
    pub fn load(state: Option<&str>, present: &[FileStamp]) -> (s: ReadState)
        ensures
            s@ == (match state {
                Some(t) => file_records(t@),
                None => all_marked(Map::empty(), views::views(present@), present@.len() as int),
            }),
    {
        let mut s = ReadState::empty();
        match state {
            Some(t) => {
                let lines = split_lines(t);
                let ghost lv = views::views(lines@);
                let mut i: usize = 0;
                while i < lines.len()
                    invariant
                        lv == views::views(lines@),
                        i <= lines@.len(),
                        s@ == records(lv, i as int),
                    decreases lines@.len() - i,
                {
                    match parse_record(&lines[i]) {
                        Some((path, mt)) => {
                            s.map.insert(path, mt);
                        },
                        None => {},
                    }
                    i = i + 1;
                }
            },
            None => {
                s.seed(present);
            },
        }
        s
    }

    /// Whether the file at `path`, with its current time, is unread.
    pub fn is_unread(&self, path: &str, mtime: Option<u64>) -> (r: bool)
        ensures
            r == unread(self@, path@, mtime),
    {
        match self.map.get(path) {
            Some(recorded) => match mtime {
                Some(t) => t != *recorded,
                None => false,
            },
            None => true,
        }
    }

    /// Whether any of a directory's files is unread.
    pub fn dir_has_unread(&self, files: &[FileStamp]) -> (r: bool)
        ensures
            r == exists|i: int|
                0 <= i < files@.len() && unread(
                    self@,
                    (#[trigger] files@[i]).path@,
                    files@[i].mtime,
                ),
    {
        let mut i: usize = 0;
        while i < files.len()
            invariant
                i <= files@.len(),
                forall|j: int|
                    0 <= j < i ==> !unread(self@, (#[trigger] files@[j]).path@, files@[j].mtime),
            decreases files@.len() - i,
        {
            if self.is_unread(&files[i].path, files[i].mtime) {
                return true;
            }
            i = i + 1;
        }
        false
    }

    /// Records a file as read at its current time.
    pub fn mark_read(&mut self, path: &str, mtime: Option<u64>)
        ensures
            final(self)@ == marked(old(self)@, path@, mtime),
    {
        match mtime {
            Some(t) => {
                let same = match self.map.get(path) {
                    Some(recorded) => *recorded == t,
                    None => false,
                };
                if !same {
                    self.map.insert(path.to_string(), t);
                }
                assert(self@ =~= marked(old(self)@, path@, mtime));
            },
            None => {},
        }
    }

    /// Records each of `files` as read: a single file, or all text files under a
    /// directory.
    pub fn mark_read_recursive(&mut self, files: &[FileStamp])
        ensures
            final(self)@ == all_marked(old(self)@, views::views(files@), files@.len() as int),
    {
        let ghost start = self@;
        let ghost fv = views::views(files@);
        let mut i: usize = 0;
        while i < files.len()
            invariant
                fv == views::views(files@),
                i <= files@.len(),
                self@ == all_marked(start, fv, i as int),
            decreases files@.len() - i,
        {
            self.mark_read(&files[i].path, files[i].mtime);
            i = i + 1;
        }
    }

    /// Records the files that are there at the first run.
    pub fn seed(&mut self, files: &[FileStamp])
        ensures
            final(self)@ == all_marked(old(self)@, views::views(files@), files@.len() as int),
    {
        self.mark_read_recursive(files);
    }

    /// The text of the state file: one `time<TAB>path` line for each record, in
    /// no particular order.
    pub fn flush(&self) -> (r: String)
        ensures
            exists|list: Seq<(Seq<char>, u64)>|
                textmap::is_listing(list, self@) && r@ == #[trigger] file_text(list, 0),
    {
        let entries = self.map.pairs();
        let ghost list = Seq::new(entries@.len(), |i: int| (entries@[i].0@, entries@[i].1));
        let mut out = String::new();
        let mut i: usize = 0;
        assert(out@ + file_text(list, 0) =~= file_text(list, 0));
        while i < entries.len()
            invariant
                list == Seq::new(entries@.len(), |i: int| (entries@[i].0@, entries@[i].1)),
                i <= entries@.len(),
                out@ + file_text(list, i as int) == file_text(list, 0),
            decreases entries@.len() - i,
        {
            let ghost prev = out@;
            out.push_str(&decimal_text(entries[i].1));
            out.push('\t');
            out.push_str(&entries[i].0);
            out.push('\n');
            proof {
                let rest = file_text(list, i + 1);
                let line = record_line(list[i as int].0, list[i as int].1);
                assert(out@ =~= prev + line);
                assert(prev + (line + rest) =~= out@ + rest);
            }
            i = i + 1;
        }
        assert(out@ =~= file_text(list, 0));
        out
    }
}

/// A file that was just marked read at a known time is not unread at that time,
/// and marking it again changes nothing.
pub proof fn law_marked_file_is_read(m: Map<Seq<char>, u64>, path: Seq<char>, t: u64)
    ensures
        !unread(marked(m, path, Some(t)), path, Some(t)),
        marked(marked(m, path, Some(t)), path, Some(t)) == marked(m, path, Some(t)),
{
    assert(marked(marked(m, path, Some(t)), path, Some(t)) =~= marked(m, path, Some(t)));
}

/// A file that was marked read becomes unread when its time changes.
pub proof fn law_changed_file_is_unread(m: Map<Seq<char>, u64>, path: Seq<char>, t: u64, now: u64)
    requires
        t != now,
    ensures
        unread(marked(m, path, Some(t)), path, Some(now)),
{
}

/// Marking a file read leaves the state of every other file as it was.
pub proof fn law_marking_is_local(
    m: Map<Seq<char>, u64>,
    path: Seq<char>,
    t: Option<u64>,
    other: Seq<char>,
    now: Option<u64>,
)
    requires
        other != path,
    ensures
        unread(marked(m, path, t), other, now) == unread(m, other, now),
{
}

/// After a directory was marked read, or was there at the first run, none of its
/// files is unread. Each file has one time.
pub proof fn law_marked_directory_is_read(
    m: Map<Seq<char>, u64>,
    files: Seq<(Seq<char>, Option<u64>)>,
    n: int,
)
    requires
        0 <= n <= files.len(),
        forall|i: int, j: int|
            0 <= i < files.len() && 0 <= j < files.len() && (#[trigger] files[i]).0 == (
            #[trigger] files[j]).0 ==> files[i].1 == files[j].1,
    ensures
        forall|i: int|
            0 <= i < n && (#[trigger] files[i]).1 is Some ==> !unread(
                all_marked(m, files, n),
                files[i].0,
                files[i].1,
            ),
    decreases n,
{
    if n > 0 {
        law_marked_directory_is_read(m, files, n - 1);
        assert forall|i: int| 0 <= i < n && (#[trigger] files[i]).1 is Some implies !unread(
            all_marked(m, files, n),
            files[i].0,
            files[i].1,
        ) by {
            if i < n - 1 && files[i].0 != files[n - 1].0 {
                assert(!unread(all_marked(m, files, n - 1), files[i].0, files[i].1));
            } else {
                assert(files[n - 1].1 == files[i].1);
            }
        }
    }
}

/// A path that a line of the state file can hold: without a newline, and not
/// ending in a carriage return.
pub open spec fn is_storable(path: Seq<char>) -> bool {
    &&& forall|i: int| 0 <= i < path.len() ==> path[i] != '\n'
    &&& path.len() > 0 ==> path.last() != '\r'
}

proof fn lemma_lines_shift(t: Seq<char>, a: Seq<char>, i: int)
    requires
        0 <= i <= t.len(),
    ensures
        diff::lines_from(a + t, a.len() + i) == diff::lines_from(t, i),
    decreases t.len() - i,
{
    let s = a + t;
    if i < t.len() {
        text::lemma_first_char(t, '\n', i);
        text::lemma_first_char(s, '\n', a.len() + i);
        match text::first_char(t, '\n', i) {
            Some(k) => {
                assert(s[a.len() + k] == '\n');
                let j = text::first_char(s, '\n', a.len() + i)->0;
                assert(j == a.len() + k) by {
                    if j < a.len() + k {
                        assert(s[j] == t[j - a.len()]);
                    }
                }
                assert(s.subrange(a.len() + i, a.len() + k) =~= t.subrange(i, k));
                lemma_lines_shift(t, a, k + 1);
            },
            None => {
                assert(text::first_char(s, '\n', a.len() + i) is None) by {
                    if let Some(j) = text::first_char(s, '\n', a.len() + i) {
                        assert(s[j] == t[j - a.len()]);
                    }
                }
                assert(s.subrange(a.len() + i, s.len() as int) =~= t.subrange(i, t.len() as int));
            },
        }
    }
}

/// A record's line, without its newline.
spec fn body(path: Seq<char>, t: u64) -> Seq<char> {
    text::decimal(t as nat).push('\t') + path
}

proof fn lemma_record_of_body(path: Seq<char>, t: u64)
    requires
        is_storable(path),
    ensures
        record_of(body(path, t)) == Some((path, t)),
        diff::without_cr(body(path, t)) == body(path, t),
        forall|i: int| 0 <= i < body(path, t).len() ==> body(path, t)[i] != '\n',
{
    let d = text::decimal(t as nat);
    let b = body(path, t);
    numbers::law_decimal_round_trip(t as nat);
    assert forall|i: int| 0 <= i < b.len() implies b[i] != '\n' by {
        if i < d.len() {
            assert(numbers::is_digit(d[i]));
        } else if i > d.len() {
            assert(b[i] == path[i - d.len() - 1]);
        }
    }
    assert(b.last() == if path.len() > 0 {
        path.last()
    } else {
        '\t'
    });
    assert(trimmed_line(b) == b);
    text::lemma_first_char(b, '\t', 0);
    let k = text::first_char(b, '\t', 0)->0;
    assert(b[d.len() as int] == '\t');
    assert(k == d.len()) by {
        if k < d.len() {
            assert(numbers::is_digit(d[k]));
        }
    }
    assert(b.take(k) =~= d);
    assert(b.skip(k + 1) =~= path);
}

/// The lines of a state file are its records, in order.
proof fn lemma_file_lines(list: Seq<(Seq<char>, u64)>, i: int)
    requires
        0 <= i <= list.len(),
        forall|j: int| 0 <= j < list.len() ==> is_storable((#[trigger] list[j]).0),
    ensures
        diff::lines_from(file_text(list, i), 0) == Seq::new(
            (list.len() - i) as nat,
            |j: int| body(list[i + j].0, list[i + j].1),
        ),
    decreases list.len() - i,
{
    let t = file_text(list, i);
    if i < list.len() {
        let b = body(list[i].0, list[i].1);
        let line = record_line(list[i].0, list[i].1);
        let rest = file_text(list, i + 1);
        lemma_record_of_body(list[i].0, list[i].1);
        assert(line =~= b.push('\n'));
        assert(t == line + rest);
        text::lemma_first_char(t, '\n', 0);
        assert(t[b.len() as int] == '\n');
        let k = text::first_char(t, '\n', 0)->0;
        assert(k == b.len()) by {
            if k < b.len() {
                assert(t[k] == b[k]);
            }
        }
        assert(t.subrange(0, k) =~= b);
        lemma_lines_shift(rest, line, 0);
        assert(line.len() + 0 == k + 1);
        lemma_file_lines(list, i + 1);
        let tail = Seq::new(
            (list.len() - (i + 1)) as nat,
            |j: int| body(list[i + 1 + j].0, list[i + 1 + j].1),
        );
        assert(diff::lines_from(t, 0) == seq![b] + tail);
        assert(seq![b] + tail =~= Seq::new(
            (list.len() - i) as nat,
            |j: int| body(list[i + j].0, list[i + j].1),
        ));
    } else {
        assert(diff::lines_from(t, 0) =~= Seq::new(
            (list.len() - i) as nat,
            |j: int| body(list[i + j].0, list[i + j].1),
        ));
    }
}

proof fn lemma_records_of_list(list: Seq<(Seq<char>, u64)>, lines: Seq<Seq<char>>, n: int)
    requires
        0 <= n <= list.len(),
        lines.len() == list.len(),
        forall|j: int|
            0 <= j < list.len() ==> is_storable((#[trigger] list[j]).0) && lines[j] == body(
                list[j].0,
                list[j].1,
            ),
    ensures
        records(lines, n) == textmap::map_of(list, n),
    decreases n,
{
    if n > 0 {
        lemma_records_of_list(list, lines, n - 1);
        assert(is_storable(list[n - 1].0));
        lemma_record_of_body(list[n - 1].0, list[n - 1].1);
    }
}

/// Reading a state file back gives the records that were written, in whatever
/// order they were listed.
pub proof fn law_state_file_round_trip(m: Map<Seq<char>, u64>, list: Seq<(Seq<char>, u64)>)
    requires
        textmap::is_listing(list, m),
        forall|j: int| 0 <= j < list.len() ==> is_storable((#[trigger] list[j]).0),
    ensures
        file_records(file_text(list, 0)) == m,
{
    lemma_file_lines(list, 0);
    let lines = diff::lines_from(file_text(list, 0), 0);
    lemma_records_of_list(list, lines, list.len() as int);
}

} // verus!
