use vstd::prelude::*;
use crate::text::{chars_of, string_from_chars};

verus! {

/// What a file path maps to: its path and its changed-line intervals
/// `(start, length)` on the post-change side, in hunk order.
pub type FileModel = Seq<(Seq<char>, Seq<(usize, usize)>)>;

// ---------------------------------------------------------------------------
// Lines

/// The pieces of `s` between newline characters (`s` split at every `'\n'`).
pub open spec fn pieces(s: Seq<char>) -> Seq<Seq<char>>
    decreases s.len(),
{
    if s.len() == 0 {
        seq![Seq::<char>::empty()]
    } else {
        let p = pieces(s.drop_last());
        if s.last() == '\n' {
            p.push(Seq::<char>::empty())
        } else {
            p.update(p.len() - 1, p.last().push(s.last()))
        }
    }
}

/// The lines of `s`: its pieces between newlines, where a final newline ends
/// the last line instead of starting an empty one.
pub open spec fn lines(s: Seq<char>) -> Seq<Seq<char>> {
    let p = pieces(s);
    if p.last().len() == 0 {
        p.drop_last()
    } else {
        p
    }
}

// ---------------------------------------------------------------------------
// Numbers

pub open spec fn is_digit(c: char) -> bool {
    '0' <= c && c <= '9'
}

/// The value of a sequence of decimal digits.
pub open spec fn decimal(ds: Seq<char>) -> nat
    decreases ds.len(),
{
    if ds.len() == 0 {
        0
    } else {
        (decimal(ds.drop_last()) * 10 + (ds.last() as int - '0' as int)) as nat
    }
}

/// The first position at or after `i` that does not hold a digit.
pub open spec fn digits_end(l: Seq<char>, i: int) -> int
    decreases l.len() - i,
{
    if 0 <= i < l.len() && is_digit(l[i]) {
        digits_end(l, i + 1)
    } else {
        i
    }
}

// ---------------------------------------------------------------------------
// Header lines

pub open spec fn is_space(c: char) -> bool {
    c == ' ' || c == '\t' || c == '\r' || c == '\x0b' || c == '\x0c'
}

/// `s` without its trailing whitespace.
pub open spec fn trim_end(s: Seq<char>) -> Seq<char>
    decreases s.len(),
{
    if s.len() > 0 && is_space(s.last()) {
        trim_end(s.drop_last())
    } else {
        s
    }
}

/// The path named by a file header `+++ [X/]path`: what follows `+++ ` and
/// an optional one-character prefix with its slash, without trailing
/// whitespace. `None` when `l` is no file header.
pub open spec fn header_path(l: Seq<char>) -> Option<Seq<char>> {
    if l.len() >= 4 && l[0] == '+' && l[1] == '+' && l[2] == '+' && l[3] == ' ' {
        let from = if l.len() >= 6 && l[5] == '/' {
            6
        } else {
            4
        };
        Some(trim_end(l.subrange(from, l.len() as int)))
    } else {
        None
    }
}

/// The end of an optional `,<digits>` group at `i`, or `i` when there is none.
pub open spec fn count_end(l: Seq<char>, i: int) -> int {
    if 0 <= i < l.len() && l[i] == ',' && digits_end(l, i + 1) > i + 1 {
        digits_end(l, i + 1)
    } else {
        i
    }
}

/// For a hunk header `@@ -<a>[,<b>] +<c>[,<d>] @@...`, the positions
/// `(c_start, c_end, d_start, d_end)` of the digits of `c` and `d` in `l`
/// (`d_start == d_end` when `d` is absent). `None` when `l` is no hunk header.
pub open spec fn hunk_fields(l: Seq<char>) -> Option<(int, int, int, int)> {
    let e1 = digits_end(l, 4);
    let q = count_end(l, e1);
    let b = q + 2;
    let e3 = digits_end(l, b);
    let r = count_end(l, e3);
    if l.len() >= 4 && l[0] == '@' && l[1] == '@' && l[2] == ' ' && l[3] == '-' && e1 > 4
        && q + 2 <= l.len() && l[q] == ' ' && l[q + 1] == '+' && e3 > b && r + 3 <= l.len()
        && l[r] == ' ' && l[r + 1] == '@' && l[r + 2] == '@' {
        if r > e3 {
            Some((b, e3, e3 + 1, r))
        } else {
            Some((b, e3, e3, e3))
        }
    } else {
        None
    }
}

// ---------------------------------------------------------------------------
// Parsing

/// Why a diff could not be parsed; `line` is the 1-based number of the
/// offending line.
#[derive(Clone, Copy, Debug, PartialEq, Eq, Structural)]
pub enum DiffError {
    /// A line number of a hunk header does not fit in `usize`.
    BadNumber { line: usize },
    /// A hunk header comes before any file header.
    HunkBeforeFile { line: usize },
}

/// The index of the last entry of `files` whose path is `path`.
pub open spec fn find_file(files: FileModel, path: Seq<char>) -> Option<int>
    decreases files.len(),
{
    if files.len() == 0 {
        None
    } else if files.last().0 == path {
        Some(files.len() - 1)
    } else {
        find_file(files.drop_last(), path)
    }
}

/// The new start and length of a hunk header, as numbers.
pub open spec fn hunk_numbers(l: Seq<char>, f: (int, int, int, int)) -> (nat, nat) {
    let from = decimal(l.subrange(f.0, f.1));
    let len = if f.2 == f.3 {
        1
    } else {
        decimal(l.subrange(f.2, f.3))
    };
    (from, len)
}

/// The effect of line number `n` (text `l`) on the parse state: the files
/// seen so far, and the index of the current file.
pub open spec fn step(files: FileModel, cur: Option<int>, l: Seq<char>, n: nat) -> Result<
    (FileModel, Option<int>),
    DiffError,
> {
    match header_path(l) {
        Some(p) => match find_file(files, p) {
            Some(k) => Ok((files, Some(k))),
            None => Ok((files.push((p, Seq::empty())), Some(files.len() as int))),
        },
        None => match hunk_fields(l) {
            None => Ok((files, cur)),
            Some(f) => {
                let (from, len) = hunk_numbers(l, f);
                if from > usize::MAX || len > usize::MAX {
                    Err(DiffError::BadNumber { line: n as usize })
                } else {
                    match cur {
                        None => Err(DiffError::HunkBeforeFile { line: n as usize }),
                        Some(k) => Ok(
                            (
                                files.update(k, (files[k].0, files[k].1.push((from as usize, len as usize)))),
                                cur,
                            ),
                        ),
                    }
                }
            },
        },
    }
}

/// The parse state after the lines `ls`, or the first error among them.
pub open spec fn parse_lines(ls: Seq<Seq<char>>) -> Result<(FileModel, Option<int>), DiffError>
    decreases ls.len(),
{
    if ls.len() == 0 {
        Ok((Seq::empty(), None))
    } else {
        match parse_lines(ls.drop_last()) {
            Err(e) => Err(e),
            Ok(st) => step(st.0, st.1, ls.last(), ls.len()),
        }
    }
}

/// What parsing the diff text `s` gives: each file's intervals, in the order
/// in which the files were first named, or the first error.
pub open spec fn parse_spec(s: Seq<char>) -> Result<FileModel, DiffError> {
    match parse_lines(lines(s)) {
        Ok(st) => Ok(st.0),
        Err(e) => Err(e),
    }
}

// ---------------------------------------------------------------------------
// Lemmas

proof fn lemma_decimal_prefix(ds: Seq<char>, i: int)
    requires
        0 <= i <= ds.len(),
        forall|k: int| 0 <= k < ds.len() ==> is_digit(#[trigger] ds[k]),
    ensures
        decimal(ds.take(i)) <= decimal(ds),
    decreases ds.len(),
{
    if i == ds.len() {
        assert(ds.take(i) =~= ds);
    } else {
        let d = ds.drop_last();
        assert(d.take(i) =~= ds.take(i));
        lemma_decimal_prefix(d, i);
    }
}

proof fn lemma_find_file(files: FileModel, path: Seq<char>)
    ensures
        match find_file(files, path) {
            Some(k) => 0 <= k < files.len() && files[k].0 == path,
            None => forall|k: int| 0 <= k < files.len() ==> (#[trigger] files[k]).0 != path,
        },
    decreases files.len(),
{
    if files.len() > 0 {
        lemma_find_file(files.drop_last(), path);
        assert forall|k: int| 0 <= k < files.len() - 1 implies (#[trigger] files[k]).0
            == files.drop_last()[k].0 by {}
    }
}

proof fn lemma_pieces_nonempty(s: Seq<char>)
    ensures
        pieces(s).len() >= 1,
    decreases s.len(),
{
    if s.len() > 0 {
        lemma_pieces_nonempty(s.drop_last());
    }
}

/// The finished pieces of a prefix of `s` are the first pieces of `s`.
proof fn lemma_pieces_prefix(s: Seq<char>, i: int, j: int)
    requires
        0 <= i <= j <= s.len(),
    ensures
        pieces(s.take(j)).len() >= pieces(s.take(i)).len() >= 1,
        pieces(s.take(j)).take(pieces(s.take(i)).len() - 1) == pieces(s.take(i)).drop_last(),
    decreases j - i,
{
    if i == j {
        lemma_pieces_nonempty(s.take(i));
        assert(pieces(s.take(j)).take(pieces(s.take(i)).len() - 1) =~= pieces(s.take(i)).drop_last());
    } else {
        lemma_pieces_prefix(s, i, j - 1);
        assert(s.take(j).drop_last() =~= s.take(j - 1));
        let p = pieces(s.take(i));
        let q = pieces(s.take(j - 1));
        let q2 = pieces(s.take(j));
        assert(q2.take(p.len() - 1) =~= q.take(p.len() - 1));
    }
}

/// Once a prefix of the lines fails, all of them fail with the same error.
proof fn lemma_parse_error_stays(ls: Seq<Seq<char>>, m: int, e: DiffError)
    requires
        0 <= m <= ls.len(),
        parse_lines(ls.take(m)) == Err::<(FileModel, Option<int>), DiffError>(e),
    ensures
        parse_lines(ls) == Err::<(FileModel, Option<int>), DiffError>(e),
    decreases ls.len(),
{
    if m == ls.len() {
        assert(ls.take(m) =~= ls);
    } else {
        assert(ls.drop_last().take(m) =~= ls.take(m));
        lemma_parse_error_stays(ls.drop_last(), m, e);
    }
}

/// A hunk header after a file header appends its new start and length to
/// the intervals of the current file, and changes nothing else.
pub proof fn lemma_hunk_is_recorded(ls: Seq<Seq<char>>, l: Seq<char>)
    requires
        parse_lines(ls) matches Ok(st) && st.1 is Some,
        hunk_fields(l) is Some,
        hunk_numbers(l, hunk_fields(l)->Some_0).0 <= usize::MAX,
        hunk_numbers(l, hunk_fields(l)->Some_0).1 <= usize::MAX,
    ensures
        ({
            let st = parse_lines(ls)->Ok_0;
            let k = st.1->Some_0;
            let (from, len) = hunk_numbers(l, hunk_fields(l)->Some_0);
            parse_lines(ls.push(l)) == Ok::<(FileModel, Option<int>), DiffError>(
                (st.0.update(k, (st.0[k].0, st.0[k].1.push((from as usize, len as usize)))), Some(k)),
            )
        }),
{
    assert(ls.push(l).drop_last() =~= ls);
    assert(header_path(l) is None);
}

/// A file header names the current file: a path seen before keeps its
/// intervals, a new path is added after all the others with no intervals.
pub proof fn lemma_file_header_registers(ls: Seq<Seq<char>>, l: Seq<char>)
    requires
        parse_lines(ls) is Ok,
        header_path(l) is Some,
    ensures
        ({
            let files = parse_lines(ls)->Ok_0.0;
            let p = header_path(l)->Some_0;
            match find_file(files, p) {
                Some(k) => parse_lines(ls.push(l)) == Ok::<(FileModel, Option<int>), DiffError>(
                    (files, Some(k)),
                ) && files[k].0 == p,
                None => parse_lines(ls.push(l)) == Ok::<(FileModel, Option<int>), DiffError>(
                    (files.push((p, Seq::empty())), Some(files.len() as int)),
                ),
            }
        }),
{
    assert(ls.push(l).drop_last() =~= ls);
    lemma_find_file(parse_lines(ls)->Ok_0.0, header_path(l)->Some_0);
}

proof fn lemma_no_current_file(ls: Seq<Seq<char>>, m: int)
    requires
        0 <= m <= ls.len(),
        forall|j: int| 0 <= j < m ==> header_path(#[trigger] ls[j]) is None,
    ensures
        parse_lines(ls.take(m)) is Err || parse_lines(ls.take(m))->Ok_0.1 is None,
    decreases m,
{
    if m > 0 {
        lemma_no_current_file(ls, m - 1);
        assert(ls.take(m).drop_last() =~= ls.take(m - 1));
        assert(header_path(ls[m - 1]) is None);
    }
}

/// A hunk header that comes before any file header makes the whole diff an
/// error.
pub proof fn lemma_hunk_before_file_header_fails(ls: Seq<Seq<char>>, k: int)
    requires
        0 <= k < ls.len(),
        forall|j: int| 0 <= j <= k ==> header_path(#[trigger] ls[j]) is None,
        hunk_fields(ls[k]) is Some,
    ensures
        parse_lines(ls) is Err,
{
    lemma_no_current_file(ls, k);
    assert(ls.take(k + 1).drop_last() =~= ls.take(k));
    let e = parse_lines(ls.take(k + 1))->Err_0;
    lemma_parse_error_stays(ls, k + 1, e);
}

// ---------------------------------------------------------------------------
// The map of changed lines

/// For each file named in a diff, the ordered `(start, length)` intervals of
/// its changed lines on the post-change side. Paths are kept in the order in
/// which they were first named; each path occurs once.
pub struct FileChanges {
    paths: Vec<String>,
    ranges: Vec<Vec<(usize, usize)>>,
}

impl View for FileChanges {
    type V = FileModel;

    closed spec fn view(&self) -> FileModel {
        Seq::new(self.paths@.len(), |i: int| (self.paths@[i]@, self.ranges@[i]@))
    }
}

/// No path occurs twice.
pub open spec fn unique_paths(files: FileModel) -> bool {
    forall|i: int, j: int|
        0 <= i < j < files.len() ==> (#[trigger] files[i]).0 != (#[trigger] files[j]).0
}

impl FileChanges {
    pub closed spec fn wf(&self) -> bool {
        self.paths@.len() == self.ranges@.len()
    }

    fn new() -> (r: FileChanges)
        ensures
            r.wf(),
            r@ == Seq::<(Seq<char>, Seq<(usize, usize)>)>::empty(),
    {
        let r = FileChanges { paths: Vec::new(), ranges: Vec::new() };
        assert(r@ =~= Seq::<(Seq<char>, Seq<(usize, usize)>)>::empty());
        r
    }

    /// The number of files.
    pub fn len(&self) -> (r: usize)
        requires
            self.wf(),
        ensures
            r == self@.len(),
    {
        self.paths.len()
    }

    /// The index of the entry for `path`.
    fn find(&self, path: &String) -> (r: Option<usize>)
        requires
            self.wf(),
        ensures
            match find_file(self@, path@) {
                Some(k) => r is Some && r->Some_0 == k && 0 <= k < self@.len() && self@[k].0 == path@,
                None => r is None,
            },
    {
        proof {
            lemma_find_file(self@, path@);
        }
        let mut i = self.paths.len();
        assert(self@.take(i as int) =~= self@);
        while i > 0
            invariant
                i <= self.paths@.len(),
                self.wf(),
                find_file(self@, path@) == find_file(self@.take(i as int), path@),
            decreases i,
        {
            assert(self@.take(i as int).drop_last() =~= self@.take(i - 1));
            if self.paths[i - 1] == *path {
                return Some(i - 1);
            }
            i -= 1;
        }
        None
    }

    /// The intervals of `path`, if the diff named it.
    pub fn get(&self, path: &str) -> (r: Option<&Vec<(usize, usize)>>)
        requires
            self.wf(),
        ensures
            match find_file(self@, path@) {
                Some(k) => 0 <= k < self@.len() && (r matches Some(v) && v@ == self@[k].1),
                None => r is None,
            },
    {
        let key = path.to_owned();
        match self.find(&key) {
            Some(k) => {
                proof {
                    lemma_find_file(self@, path@);
                    assert(self@[k as int].1 == self.ranges@[k as int]@);
                }
                Some(&self.ranges[k])
            },
            None => None,
        }
    }

    /// Make `path` known, with no intervals if it is new; return its index.
    fn open_file(&mut self, path: String) -> (r: usize)
        requires
            old(self).wf(),
        ensures
            final(self).wf(),
            match find_file(old(self)@, path@) {
                Some(k) => r == k && final(self)@ == old(self)@,
                None => r == old(self)@.len() && final(self)@ == old(self)@.push(
                    (path@, Seq::empty()),
                ),
            },
    {
        match self.find(&path) {
            Some(k) => k,
            None => {
                let ghost p = path@;
                let n = self.paths.len();
                self.paths.push(path);
                self.ranges.push(Vec::new());
                assert(self@ =~= old(self)@.push((p, Seq::empty())));
                n
            },
        }
    }

    /// Append an interval to the entry at index `k`.
    fn push_interval(&mut self, k: usize, iv: (usize, usize))
        requires
            old(self).wf(),
            k < old(self)@.len(),
        ensures
            final(self).wf(),
            final(self)@ == old(self)@.update(
                k as int,
                (old(self)@[k as int].0, old(self)@[k as int].1.push(iv)),
            ),
    {
        let mut v = Vec::new();
        std::mem::swap(&mut v, &mut self.ranges[k]);
        v.push(iv);
        self.ranges[k] = v;
        assert(self@ =~= old(self)@.update(
            k as int,
            (old(self)@[k as int].0, old(self)@[k as int].1.push(iv)),
        ));
    }
}

// ---------------------------------------------------------------------------
// Recognising lines

fn is_digit_char(c: char) -> (r: bool)
    ensures
        r == is_digit(c),
{
    '0' <= c && c <= '9'
}

fn is_space_char(c: char) -> (r: bool)
    ensures
        r == is_space(c),
{
    c == ' ' || c == '\t' || c == '\r' || c == '\x0b' || c == '\x0c'
}

fn scan_digits(l: &Vec<char>, i: usize) -> (r: usize)
    requires
        i <= l@.len(),
    ensures
        r == digits_end(l@, i as int),
        i <= r <= l@.len(),
        forall|k: int| i <= k < r ==> is_digit(#[trigger] l@[k]),
{
    let mut j = i;
    while j < l.len() && is_digit_char(l[j])
        invariant
            i <= j <= l@.len(),
            forall|k: int| i <= k < j ==> is_digit(#[trigger] l@[k]),
            digits_end(l@, i as int) == digits_end(l@, j as int),
        decreases l@.len() - j,
    {
        j += 1;
    }
    j
}

fn scan_count(l: &Vec<char>, i: usize) -> (r: usize)
    requires
        i <= l@.len(),
    ensures
        r == count_end(l@, i as int),
        i <= r <= l@.len(),
        r > i ==> forall|k: int| i + 1 <= k < r ==> is_digit(#[trigger] l@[k]),
{
    if i < l.len() && l[i] == ',' {
        let e = scan_digits(l, i + 1);
        if e > i + 1 {
            return e;
        }
    }
    i
}

fn has_at(l: &Vec<char>, i: usize, c: char) -> (r: bool)
    ensures
        r == (i < l@.len() && l@[i as int] == c),
{
    i < l.len() && l[i] == c
}

/// The positions that `hunk_fields` gives.
fn hunk_header(l: &Vec<char>) -> (r: Option<(usize, usize, usize, usize)>)
    ensures
        match hunk_fields(l@) {
            Some(f) => r matches Some(g) && g.0 == f.0 && g.1 == f.1 && g.2 == f.2 && g.3 == f.3
                && f.0 < f.1 && f.1 <= f.2 <= f.3 <= l@.len()
                && (forall|k: int| f.0 <= k < f.1 ==> is_digit(#[trigger] l@[k]))
                && (forall|k: int| f.2 <= k < f.3 ==> is_digit(#[trigger] l@[k])),
            None => r is None,
        },
{
    let n = l.len();
    if n < 4 || l[0] != '@' || l[1] != '@' || l[2] != ' ' || l[3] != '-' {
        return None;
    }
    let e1 = scan_digits(l, 4);
    if e1 == 4 {
        return None;
    }
    let q = scan_count(l, e1);
    if !has_at(l, q, ' ') {
        return None;
    }
    if !has_at(l, q + 1, '+') {
        return None;
    }
    let b = q + 2;
    let e3 = scan_digits(l, b);
    if e3 == b {
        return None;
    }
    let r = scan_count(l, e3);
    if !has_at(l, r, ' ') {
        return None;
    }
    if !has_at(l, r + 1, '@') {
        return None;
    }
    if !has_at(l, r + 2, '@') {
        return None;
    }
    if r > e3 {
        Some((b, e3, e3 + 1, r))
    } else {
        Some((b, e3, e3, e3))
    }
}

/// The bounds of the path of a file header, with trailing whitespace removed.
fn file_header(l: &Vec<char>) -> (r: Option<(usize, usize)>)
    ensures
        match header_path(l@) {
            Some(p) => r matches Some(g) && g.0 <= g.1 <= l@.len() && p == l@.subrange(
                g.0 as int,
                g.1 as int,
            ),
            None => r is None,
        },
{
    let n = l.len();
    if n < 4 || l[0] != '+' || l[1] != '+' || l[2] != '+' || l[3] != ' ' {
        return None;
    }
    let from: usize = if has_at(l, 5, '/') {
        6
    } else {
        4
    };
    let mut to = n;
    while to > from && is_space_char(l[to - 1])
        invariant
            from <= to <= l@.len(),
            trim_end(l@.subrange(from as int, l@.len() as int)) == trim_end(
                l@.subrange(from as int, to as int),
            ),
        decreases to,
    {
        assert(l@.subrange(from as int, to as int).drop_last() =~= l@.subrange(
            from as int,
            to - 1,
        ));
        to -= 1;
    }
    Some((from, to))
}

/// The value of the digits `l[a..b]`, or `None` when it exceeds `usize::MAX`.
fn parse_number(l: &Vec<char>, a: usize, b: usize) -> (r: Option<usize>)
    requires
        a <= b <= l@.len(),
        forall|k: int| a <= k < b ==> is_digit(#[trigger] l@[k]),
    ensures
        match r {
            Some(v) => v == decimal(l@.subrange(a as int, b as int)),
            None => decimal(l@.subrange(a as int, b as int)) > usize::MAX,
        },
{
    let mut v: usize = 0;
    let mut j = a;
    assert(l@.subrange(a as int, a as int) =~= Seq::<char>::empty());
    while j < b
        invariant
            a <= j <= b <= l@.len(),
            forall|k: int| a <= k < b ==> is_digit(#[trigger] l@[k]),
            v == decimal(l@.subrange(a as int, j as int)),
        decreases b - j,
    {
        let ghost ds = l@.subrange(a as int, b as int);
        assert(l@.subrange(a as int, j + 1).drop_last() =~= l@.subrange(a as int, j as int));
        assert(ds.take(j + 1 - a) =~= l@.subrange(a as int, j + 1));
        let d = (l[j] as u32 - '0' as u32) as usize;
        let next = match v.checked_mul(10) {
            Some(m) => m.checked_add(d),
            None => None,
        };
        match next {
            Some(n) => {
                v = n;
            },
            None => {
                proof {
                    lemma_decimal_prefix(ds, j + 1 - a);
                }
                return None;
            },
        }
        j += 1;
    }
    Some(v)
}

/// Apply the line `l`, numbered `n`, to the files seen so far and the
/// current file.
fn apply_line(fc: &mut FileChanges, cur: &mut Option<usize>, l: &Vec<char>, n: usize) -> (r: Result<
    (),
    DiffError,
>)
    requires
        old(fc).wf(),
        unique_paths(old(fc)@),
        *old(cur) matches Some(k) ==> k < old(fc)@.len(),
    ensures
        match step(old(fc)@, opt_index(*old(cur)), l@, n as nat) {
            Ok(st) => r is Ok && final(fc)@ == st.0 && opt_index(*final(cur)) == st.1,
            Err(e) => r == Err::<(), DiffError>(e),
        },
        final(fc).wf(),
        unique_paths(final(fc)@),
        *final(cur) matches Some(k) ==> k < final(fc)@.len(),
{
    if let Some((a, b)) = file_header(l) {
        let path = string_from_chars(&l.as_slice()[a..b]);
        proof {
            assert(l@.subrange(a as int, b as int) =~= path@);
            lemma_find_file(fc@, path@);
        }
        let k = fc.open_file(path);
        *cur = Some(k);
        return Ok(());
    }
    match hunk_header(l) {
        None => Ok(()),
        Some((b, e, lb, le)) => {
            let from = match parse_number(l, b, e) {
                Some(v) => v,
                None => {
                    return Err(DiffError::BadNumber { line: n });
                },
            };
            let len = if lb == le {
                1
            } else {
                match parse_number(l, lb, le) {
                    Some(v) => v,
                    None => {
                        return Err(DiffError::BadNumber { line: n });
                    },
                }
            };
            match *cur {
                None => Err(DiffError::HunkBeforeFile { line: n }),
                Some(k) => {
                    fc.push_interval(k, (from, len));
                    Ok(())
                },
            }
        },
    }
}

/// `c` as an index.
pub open spec fn opt_index(c: Option<usize>) -> Option<int> {
    match c {
        Some(k) => Some(k as int),
        None => None,
    }
}

/// Return for each file an ordered list of `(start, len)` intervals of
/// modified lines: every hunk header `@@ -a[,b] +c[,d] @@` adds `(c, d)`
/// (`d` is 1 when absent) to the file of the last file header `+++ [X/]path`
/// before it. Other lines are ignored.
pub fn parse_diff(diff: &str) -> (r: Result<FileChanges, DiffError>)
    ensures
        match parse_spec(diff@) {
            Ok(files) => r matches Ok(fc) && fc.wf() && fc@ == files,
            Err(e) => r == Err::<FileChanges, DiffError>(e),
        },
        r matches Ok(fc) ==> unique_paths(fc@),
{
    let text = chars_of(diff);
    let n = text.len();
    let mut fc = FileChanges::new();
    let mut cur: Option<usize> = None;
    let mut line: Vec<char> = Vec::new();
    let mut count: usize = 0;
    let ghost mut done: Seq<Seq<char>> = Seq::empty();
    let mut i: usize = 0;
    while i < n
        invariant
            n == text@.len(),
            text@ == diff@,
            i <= n,
            pieces(text@.take(i as int)) == done.push(line@),
            count == done.len(),
            done.len() + line@.len() <= i,
            fc.wf(),
            unique_paths(fc@),
            cur matches Some(k) ==> k < fc@.len(),
            parse_lines(done) == Ok::<(FileModel, Option<int>), DiffError>((fc@, opt_index(cur))),
        decreases n - i,
    {
        let c = text[i];
        assert(text@.take(i + 1).drop_last() =~= text@.take(i as int));
        if c == '\n' {
            count += 1;
            let ghost before = done;
            proof {
                done = done.push(line@);
                assert(done.drop_last() =~= before);
            }
            let applied = apply_line(&mut fc, &mut cur, &line, count);
            if let Err(e) = applied {
                proof {
                    assert(pieces(text@.take(i + 1)) =~= done.push(Seq::<char>::empty()));
                    lemma_pieces_prefix(text@, i + 1, n as int);
                    assert(text@.take(n as int) =~= text@);
                    let ls = lines(text@);
                    assert(ls.take(done.len() as int) =~= done);
                    lemma_parse_error_stays(ls, done.len() as int, e);
                }
                return Err(e);
            }
            line = Vec::new();
            assert(pieces(text@.take(i + 1)) =~= done.push(line@));
        } else {
            line.push(c);
            assert(pieces(text@.take(i + 1)) =~= done.push(line@));
        }
        i += 1;
    }
    assert(text@.take(n as int) =~= text@);
    if line.len() > 0 {
        count += 1;
        let ghost before = done;
        proof {
            done = done.push(line@);
            assert(done.drop_last() =~= before);
        }
        apply_line(&mut fc, &mut cur, &line, count)?;
    }
    assert(lines(diff@) == done);
    Ok(fc)
}

} // verus!
