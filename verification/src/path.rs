//! File paths as raw bytes, with the Unix rules for joining a path and for
//! taking it apart. A path need not be UTF-8.
use crate::encoding;
use vstd::prelude::*;

verus! {

/// The path separator, `/`.
pub const SEP: u8 = 47;

/// The full stop, `.`.
pub const DOT: u8 = 46;

/// The bytes of a text.
pub open spec fn bytes_of(text: Seq<char>) -> Seq<u8> {
    vstd::utf8::encode_utf8(text)
}

/// Whether the path is absolute.
pub open spec fn has_root(p: Seq<u8>) -> bool {
    p.len() > 0 && p[0] == SEP
}

/// Whether the path starts with a `.` component.
pub open spec fn leading_dot(p: Seq<u8>) -> bool {
    p.len() > 0 && p[0] == DOT && (p.len() == 1 || p[1] == SEP)
}

/// How many bytes the root or the leading `.` takes up.
pub open spec fn body_start(p: Seq<u8>) -> int {
    if has_root(p) || leading_dot(p) {
        1
    } else {
        0
    }
}

/// The position of the last separator at `from` or after it, before `end`.
pub open spec fn last_sep(p: Seq<u8>, from: int, end: int) -> Option<int>
    decreases end - from,
{
    if end <= from {
        None
    } else if p[end - 1] == SEP {
        Some(end - 1)
    } else {
        last_sep(p, from, end - 1)
    }
}

/// The last piece of the path: what follows the last separator of its body.
pub open spec fn last_piece(p: Seq<u8>) -> Seq<u8> {
    match last_sep(p, body_start(p), p.len() as int) {
        Some(i) => p.skip(i + 1),
        None => p.skip(body_start(p)),
    }
}

/// The path without its last piece and the separator before that.
pub open spec fn cut(p: Seq<u8>) -> Seq<u8> {
    match last_sep(p, body_start(p), p.len() as int) {
        Some(i) => p.take(i),
        None => p.take(body_start(p)),
    }
}

/// Whether a piece between separators names nothing: it is empty or `.`.
pub open spec fn is_idle_piece(piece: Seq<u8>) -> bool {
    piece.len() == 0 || piece == seq![DOT]
}

/// The path without trailing separators and trailing `.` pieces.
pub open spec fn trimmed(p: Seq<u8>) -> Seq<u8>
    decreases p.len(),
    via trimmed_decreases
{
    if p.len() > body_start(p) && is_idle_piece(last_piece(p)) {
        trimmed(cut(p))
    } else {
        p
    }
}

#[via_fn]
proof fn trimmed_decreases(p: Seq<u8>) {
    lemma_last_sep(p, body_start(p), p.len() as int);
}

/// The path of the directory that holds `p`, if `p` has a last component that
/// is not the root.
pub open spec fn spec_parent(p: Seq<u8>) -> Option<Seq<u8>> {
    let t = trimmed(p);
    if t.len() > body_start(t) {
        Some(trimmed(cut(t)))
    } else if leading_dot(t) {
        Some(Seq::empty())
    } else {
        None
    }
}

/// The last component of `p`, if it is a name (not the root, `.` or `..`).
pub open spec fn spec_file_name(p: Seq<u8>) -> Option<Seq<u8>> {
    let t = trimmed(p);
    if t.len() > body_start(t) && last_piece(t) != seq![DOT, DOT] {
        Some(last_piece(t))
    } else {
        None
    }
}

/// `name` inside the directory `dir`; an absolute `name` stands for itself.
pub open spec fn spec_join(dir: Seq<u8>, name: Seq<u8>) -> Seq<u8> {
    if has_root(name) {
        name
    } else if dir.len() == 0 || dir.last() == SEP {
        dir + name
    } else {
        dir + seq![SEP] + name
    }
}

/// `s` without the suffix `suffix`, if it ends with it.
pub open spec fn spec_strip_suffix(s: Seq<u8>, suffix: Seq<u8>) -> Option<Seq<u8>> {
    if spec_ends_with(s, suffix) {
        Some(s.take(s.len() - suffix.len()))
    } else {
        None
    }
}

/// Whether `s` ends with `suffix`.
pub open spec fn spec_ends_with(s: Seq<u8>, suffix: Seq<u8>) -> bool {
    suffix.len() <= s.len() && s.skip(s.len() - suffix.len()) == suffix
}

/// The directory that files derived from `p` go to: the one that holds `p`,
/// or `.` where there is none.
pub open spec fn spec_dir_of(p: Seq<u8>) -> Seq<u8> {
    match spec_parent(p) {
        Some(d) => d,
        None => bytes_of("."@),
    }
}

/// The name that files derived from `p` start from: the file name of `p`
/// without `.mkv`, or `out` where `p` has no file name in UTF-8.
pub open spec fn spec_stem_of(p: Seq<u8>) -> Seq<u8> {
    let name = match spec_file_name(p) {
        Some(n) => if vstd::utf8::valid_utf8(n) {
            n
        } else {
            bytes_of("out"@)
        },
        None => bytes_of("out"@),
    };
    match spec_strip_suffix(name, bytes_of(".mkv"@)) {
        Some(stem) => stem,
        None => name,
    }
}

/// The file name of `p` without `.mkv`, byte for byte, or `out` where `p` has no
/// file name.
pub open spec fn spec_raw_stem_of(p: Seq<u8>) -> Seq<u8> {
    match spec_file_name(p) {
        Some(n) => match spec_strip_suffix(n, bytes_of(".mkv"@)) {
            Some(stem) => stem,
            None => n,
        },
        None => bytes_of("out"@),
    }
}

/// Whether `p` has a file name that ends in `.mkv`.
pub open spec fn is_mkv(p: Seq<u8>) -> bool {
    spec_file_name(p) matches Some(n) && spec_ends_with(n, bytes_of(".mkv"@))
}

/// Where the last separator found stands.
pub proof fn lemma_last_sep(p: Seq<u8>, from: int, end: int)
    requires
        0 <= from,
        end <= p.len(),
    ensures
        last_sep(p, from, end) matches Some(i) ==> {
            &&& from <= i < end
            &&& p[i] == SEP
            &&& forall|j: int| i < j < end ==> p[j] != SEP
        },
        last_sep(p, from, end) is None ==> forall|j: int| from <= j < end ==> p[j] != SEP,
    decreases end - from,
{
    if from < end && p[end - 1] != SEP {
        lemma_last_sep(p, from, end - 1);
    }
}

/// A file path, as the bytes that the operating system takes.
#[derive(Debug, PartialEq, Eq)]
pub struct FilePath {
    pub bytes: Vec<u8>,
}

impl View for FilePath {
    type V = Seq<u8>;

    open spec fn view(&self) -> Seq<u8> {
        self.bytes@
    }
}

/// Appends the bytes of `more` to `out`.
pub fn push_bytes(out: &mut Vec<u8>, more: &[u8])
    ensures
        final(out)@ == old(out)@ + more@,
{
    let ghost start = out@;
    let mut k: usize = 0;
    while k < more.len()
        invariant
            k <= more.len(),
            out@ == start + more@.take(k as int),
        decreases more.len() - k,
    {
        out.push(more[k]);
        assert(more@.take(k + 1) =~= more@.take(k as int).push(more@[k as int]));
        k += 1;
        assert(out@ =~= start + more@.take(k as int));
    }
    assert(more@.take(k as int) =~= more@);
    assert(out@ =~= start + more@);
}

/// A copy of `from[start..end]`.
pub fn copy_range(from: &[u8], start: usize, end: usize) -> (r: Vec<u8>)
    requires
        start <= end <= from.len(),
    ensures
        r@ == from@.subrange(start as int, end as int),
{
    let mut out: Vec<u8> = Vec::new();
    let mut k: usize = start;
    while k < end
        invariant
            start <= k <= end <= from.len(),
            out@ == from@.subrange(start as int, k as int),
        decreases end - k,
    {
        out.push(from[k]);
        k += 1;
        assert(out@ =~= from@.subrange(start as int, k as int));
    }
    assert(out@ =~= from@.subrange(start as int, end as int));
    out
}

/// Whether `s` ends with `suffix`.
pub fn ends_with(s: &[u8], suffix: &[u8]) -> (r: bool)
    ensures
        r == spec_ends_with(s@, suffix@),
{
    if suffix.len() > s.len() {
        return false;
    }
    let off: usize = s.len() - suffix.len();
    let mut k: usize = 0;
    while k < suffix.len()
        invariant
            k <= suffix.len(),
            off + suffix.len() == s.len(),
            forall|j: int| 0 <= j < k ==> s@[off + j] == #[trigger] suffix@[j],
        decreases suffix.len() - k,
    {
        if s[off + k] != suffix[k] {
            assert(s@.skip(off as int)[k as int] == s@[off + k]);
            return false;
        }
        k += 1;
    }
    assert(s@.skip(off as int) =~= suffix@);
    true
}

/// `s` without the suffix `suffix`, if it ends with it.
pub fn strip_suffix(s: &[u8], suffix: &[u8]) -> (r: Option<Vec<u8>>)
    ensures
        match r {
            Some(v) => spec_strip_suffix(s@, suffix@) == Some(v@),
            None => spec_strip_suffix(s@, suffix@) is None,
        },
{
    if ends_with(s, suffix) {
        let n: usize = s.len() - suffix.len();
        assert(s@.take(n as int) =~= s@.subrange(0, n as int));
        Some(copy_range(s, 0, n))
    } else {
        None
    }
}

/// How many bytes the root or the leading `.` of `p[..end]` takes up.
fn body_start_of(p: &[u8], end: usize) -> (r: usize)
    requires
        end <= p.len(),
    ensures
        r == body_start(p@.take(end as int)),
{
    if end > 0 && (p[0] == SEP || (p[0] == DOT && (end == 1 || p[1] == SEP))) {
        1
    } else {
        0
    }
}

/// The last separator of `p[..end]` at `from` or after it.
fn last_sep_of(p: &[u8], from: usize, end: usize) -> (r: Option<usize>)
    requires
        from <= end <= p.len(),
    ensures
        match r {
            Some(i) => last_sep(p@.take(end as int), from as int, end as int) == Some(i as int)
                && from <= i < end,
            None => last_sep(p@.take(end as int), from as int, end as int) is None,
        },
{
    let ghost q = p@.take(end as int);
    let mut k: usize = end;
    while k > from
        invariant
            from <= k <= end <= p.len(),
            q == p@.take(end as int),
            last_sep(q, from as int, end as int) == last_sep(q, from as int, k as int),
        decreases k,
    {
        if p[k - 1] == SEP {
            return Some(k - 1);
        }
        k -= 1;
    }
    None
}

/// Where the last piece of `p[..end]` starts, and where the path before it ends.
fn last_piece_of(p: &[u8], end: usize) -> (r: (usize, usize))
    requires
        end <= p.len(),
        end > body_start(p@.take(end as int)),
    ensures
        r.0 <= end,
        r.1 < end,
        p@.subrange(r.0 as int, end as int) == last_piece(p@.take(end as int)),
        p@.take(r.1 as int) == cut(p@.take(end as int)),
{
    let from: usize = body_start_of(p, end);
    let ghost q = p@.take(end as int);
    match last_sep_of(p, from, end) {
        Some(i) => {
            assert(p@.subrange(i + 1, end as int) =~= q.skip(i + 1));
            assert(p@.take(i as int) =~= q.take(i as int));
            (i + 1, i)
        },
        None => {
            assert(p@.subrange(from as int, end as int) =~= q.skip(from as int));
            assert(p@.take(from as int) =~= q.take(from as int));
            (from, from)
        },
    }
}

/// The length of `p[..end]` without trailing separators and `.` pieces.
fn trimmed_len(p: &[u8], end: usize) -> (r: usize)
    requires
        end <= p.len(),
    ensures
        r <= end,
        p@.take(r as int) == trimmed(p@.take(end as int)),
{
    let mut e: usize = end;
    loop
        invariant
            e <= end <= p.len(),
            trimmed(p@.take(e as int)) == trimmed(p@.take(end as int)),
        decreases e,
    {
        let ghost q = p@.take(e as int);
        if e <= body_start_of(p, e) {
            return e;
        }
        let (start, before) = last_piece_of(p, e);
        if start == e {
            e = before;
        } else if start + 1 == e && p[start] == DOT {
            assert(last_piece(q) =~= seq![DOT]);
            e = before;
        } else {
            proof {
                let piece = last_piece(q);
                if piece == seq![DOT] {
                    assert(piece.len() == 1);
                    assert(piece[0] == p@[start as int]);
                }
            }
            return e;
        }
    }
}

impl FilePath {
    /// The path written as `text`.
    pub fn new(text: &str) -> (r: FilePath)
        ensures
            r@ == bytes_of(text@),
    {
        FilePath { bytes: text.as_bytes_vec() }
    }

    /// The path made of `bytes`.
    pub fn from_bytes(bytes: Vec<u8>) -> (r: FilePath)
        ensures
            r@ == bytes@,
    {
        FilePath { bytes }
    }

    /// The bytes of the path.
    pub fn as_bytes(&self) -> (r: &[u8])
        ensures
            r@ == self@,
    {
        self.bytes.as_slice()
    }

    /// The same path again.
    pub fn copy(&self) -> (r: FilePath)
        ensures
            r@ == self@,
    {
        let n: usize = self.bytes.len();
        assert(self@.subrange(0, n as int) =~= self@);
        FilePath { bytes: copy_range(self.bytes.as_slice(), 0, n) }
    }

    /// The directory that holds the path; `None` for the root and the empty
    /// path. A single name is held by the empty path.
    pub fn parent(&self) -> (r: Option<FilePath>)
        ensures
            match r {
                Some(d) => spec_parent(self@) == Some(d@),
                None => spec_parent(self@) is None,
            },
    {
        let p: &[u8] = self.bytes.as_slice();
        assert(p@.take(p@.len() as int) =~= p@);
        let e: usize = trimmed_len(p, p.len());
        let ghost t = p@.take(e as int);
        if e > body_start_of(p, e) {
            let (_, before) = last_piece_of(p, e);
            let d: usize = trimmed_len(p, before);
            assert(p@.subrange(0, d as int) =~= p@.take(d as int));
            Some(FilePath { bytes: copy_range(p, 0, d) })
        } else if e > 0 && p[0] == DOT {
            assert(leading_dot(t));
            let empty: Vec<u8> = Vec::new();
            assert(empty@ =~= Seq::<u8>::empty());
            Some(FilePath { bytes: empty })
        } else {
            None
        }
    }

    /// The last component of the path, if it is a name.
    pub fn file_name(&self) -> (r: Option<Vec<u8>>)
        ensures
            match r {
                Some(n) => spec_file_name(self@) == Some(n@),
                None => spec_file_name(self@) is None,
            },
    {
        let p: &[u8] = self.bytes.as_slice();
        assert(p@.take(p@.len() as int) =~= p@);
        let e: usize = trimmed_len(p, p.len());
        let ghost t = p@.take(e as int);
        if e > body_start_of(p, e) {
            let (start, _) = last_piece_of(p, e);
            let ghost piece = last_piece(t);
            if e - start == 2 && p[start] == DOT && p[start + 1] == DOT {
                assert(piece =~= seq![DOT, DOT]);
                None
            } else {
                proof {
                    if piece == seq![DOT, DOT] {
                        assert(piece.len() == 2);
                        assert(piece[0] == p@[start as int]);
                        assert(piece[1] == p@[start + 1]);
                    }
                }
                Some(copy_range(p, start, e))
            }
        } else {
            None
        }
    }

    /// `name` inside this directory; an absolute `name` stands for itself.
    pub fn join_bytes(&self, name: &[u8]) -> (r: FilePath)
        ensures
            r@ == spec_join(self@, name@),
    {
        let mut out: Vec<u8> = Vec::new();
        let n: usize = self.bytes.len();
        if name.len() > 0 && name[0] == SEP {
            push_bytes(&mut out, name);
            assert(out@ =~= name@);
        } else {
            push_bytes(&mut out, self.bytes.as_slice());
            if n > 0 && self.bytes[n - 1] != SEP {
                out.push(SEP);
            }
            push_bytes(&mut out, name);
            assert(out@ =~= spec_join(self@, name@));
        }
        FilePath { bytes: out }
    }

    /// The directory that files derived from this one go to.
    pub fn dir_of(&self) -> (r: FilePath)
        ensures
            r@ == spec_dir_of(self@),
    {
        match self.parent() {
            Some(d) => d,
            None => FilePath::new("."),
        }
    }

    /// The name that files derived from this one start from.
    pub fn stem_of(&self) -> (r: Vec<u8>)
        ensures
            r@ == spec_stem_of(self@),
    {
        let name = match self.file_name() {
            Some(n) => if encoding::is_utf8(n.as_slice()) {
                n
            } else {
                "out".as_bytes_vec()
            },
            None => "out".as_bytes_vec(),
        };
        match strip_suffix(name.as_slice(), ".mkv".as_bytes()) {
            Some(stem) => stem,
            None => name,
        }
    }

    /// The file name without `.mkv`, byte for byte, or `out` where there is no
    /// file name.
    pub fn raw_stem_of(&self) -> (r: Vec<u8>)
        ensures
            r@ == spec_raw_stem_of(self@),
    {
        match self.file_name() {
            Some(n) => match strip_suffix(n.as_slice(), ".mkv".as_bytes()) {
                Some(stem) => stem,
                None => n,
            },
            None => "out".as_bytes_vec(),
        }
    }

    /// `name` inside this directory; an absolute `name` stands for itself.
    pub fn join(&self, name: &str) -> (r: FilePath)
        ensures
            r@ == spec_join(self@, bytes_of(name@)),
    {
        self.join_bytes(name.as_bytes())
    }
}

/// Whether `name` can name a file inside a directory: it is not empty, holds
/// no separator and is neither `.` nor `..`.
pub open spec fn is_name(name: Seq<u8>) -> bool {
    &&& name.len() > 0
    &&& forall|i: int| 0 <= i < name.len() ==> name[i] != SEP
    &&& name != seq![DOT]
    &&& name != seq![DOT, DOT]
}

/// The last separator is the one that no other follows.
proof fn lemma_last_sep_unique(p: Seq<u8>, from: int, end: int, i: int)
    requires
        0 <= from <= i < end <= p.len(),
        p[i] == SEP,
        forall|j: int| i < j < end ==> p[j] != SEP,
    ensures
        last_sep(p, from, end) == Some(i),
    decreases end,
{
    if i + 1 < end {
        lemma_last_sep_unique(p, from, end - 1, i);
    }
}

/// What a path that ends in a name consists of.
proof fn lemma_join_pieces(dir: Seq<u8>, name: Seq<u8>)
    requires
        is_name(name),
    ensures
        spec_join(dir, name).len() > body_start(spec_join(dir, name)),
        last_piece(spec_join(dir, name)) == name,
        trimmed(cut(spec_join(dir, name))) == trimmed(dir),
{
    let p = spec_join(dir, name);
    if leading_dot(name) {
        assert(name =~= seq![DOT]);
    }
    if dir.len() == 0 {
        assert(p =~= name);
        lemma_last_sep(p, 0, p.len() as int);
        assert(p.skip(0) =~= name);
        assert(p.take(0) =~= dir);
    } else if dir.last() != SEP {
        let i = dir.len() as int;
        assert forall|j: int| i < j < p.len() implies p[j] != SEP by {
            assert(p[j] == name[j - i - 1]);
        }
        lemma_last_sep_unique(p, body_start(p), p.len() as int, i);
        assert(p.skip(i + 1) =~= name);
        assert(p.take(i) =~= dir);
    } else if dir.len() == 1 {
        assert(dir =~= seq![SEP]);
        assert forall|j: int| 1 <= j < p.len() implies p[j] != SEP by {
            assert(p[j] == name[j - 1]);
        }
        lemma_last_sep(p, 1, p.len() as int);
        assert(p.skip(1) =~= name);
        assert(p.take(1) =~= dir);
    } else {
        let i = dir.len() - 1;
        assert forall|j: int| i < j < p.len() implies p[j] != SEP by {
            assert(p[j] == name[j - i - 1]);
        }
        assert(p[0] == dir[0] && p[1] == dir[1]);
        assert(body_start(p) == body_start(dir));
        lemma_last_sep_unique(p, body_start(p), p.len() as int, i);
        lemma_last_sep_unique(dir, body_start(dir), dir.len() as int, i);
        assert(p.skip(i + 1) =~= name);
        assert(p.take(i) =~= dir.take(i));
        assert(last_piece(dir).len() == 0);
    }
}

/// A file put into a directory is found there again: its name is the last
/// component of the joined path, and the directory, without trailing
/// separators, holds it.
pub proof fn law_join_splits_again(dir: Seq<u8>, name: Seq<u8>)
    requires
        is_name(name),
    ensures
        spec_file_name(spec_join(dir, name)) == Some(name),
        spec_parent(spec_join(dir, name)) == Some(trimmed(dir)),
{
    lemma_join_pieces(dir, name);
}

/// Removing trailing separators and `.` pieces twice changes nothing more.
pub proof fn lemma_trimmed_twice(p: Seq<u8>)
    ensures
        trimmed(trimmed(p)) == trimmed(p),
        trimmed(p).len() <= p.len(),
    decreases p.len(),
{
    if p.len() > body_start(p) && is_idle_piece(last_piece(p)) {
        lemma_last_sep(p, body_start(p), p.len() as int);
        lemma_trimmed_twice(cut(p));
    }
}

/// The bytes of a text in ASCII are its characters.
pub proof fn lemma_ascii_bytes(text: Seq<char>)
    requires
        forall|i: int| 0 <= i < text.len() ==> '\0' <= #[trigger] text[i] <= '\u{7f}',
    ensures
        bytes_of(text).len() == text.len(),
        forall|i: int|
            0 <= i < text.len() ==> (#[trigger] bytes_of(text)[i]) == text[i] as u8,
{
    assert(vstd::utf8::is_ascii_chars(text));
    vstd::utf8::is_ascii_chars_encode_utf8(text);
}

/// The last component of a path holds no separator.
proof fn lemma_file_name_plain(p: Seq<u8>)
    ensures
        spec_file_name(p) matches Some(n) ==> is_name(n),
    decreases p.len(),
{
    let t = trimmed(p);
    lemma_trimmed_twice(p);
    if t.len() > body_start(t) {
        lemma_last_sep(t, body_start(t), t.len() as int);
        lemma_trimmed_twice(cut(t));
        assert(!is_idle_piece(last_piece(t)));
    }
}

/// The directory for derived files carries no trailing separator or `.`.
proof fn lemma_dir_of_trimmed(p: Seq<u8>)
    ensures
        trimmed(spec_dir_of(p)) == spec_dir_of(p),
{
    let t = trimmed(p);
    reveal_strlit(".");
    lemma_ascii_bytes("."@);
    if t.len() > body_start(t) {
        lemma_trimmed_twice(cut(t));
    }
}

/// The name that derived files start from holds no separator. It is at most
/// four bytes shorter than the file name, if that is in UTF-8.
pub proof fn lemma_stem_plain(p: Seq<u8>)
    ensures
        forall|i: int| 0 <= i < spec_stem_of(p).len() ==> spec_stem_of(p)[i] != SEP,
        match spec_file_name(p) {
            Some(n) if vstd::utf8::valid_utf8(n) => n.len() <= spec_stem_of(p).len() + 4,
            _ => spec_stem_of(p) == bytes_of("out"@),
        },
{
    reveal_strlit(".mkv");
    reveal_strlit("out");
    lemma_ascii_bytes(".mkv"@);
    lemma_ascii_bytes("out"@);
    lemma_file_name_plain(p);
    let stem = spec_stem_of(p);
    assert forall|i: int| 0 <= i < stem.len() implies stem[i] != SEP by {
        if spec_file_name(p) is Some && vstd::utf8::valid_utf8(spec_file_name(p)->0) {
            assert(stem[i] == spec_file_name(p)->0[i]);
        } else {
            assert(stem[i] == bytes_of("out"@)[i]);
        }
    }
}

/// A file put under a new name into the directory for derived files of `p`
/// lies beside `p` and is not `p`.
pub proof fn lemma_placed_beside(p: Seq<u8>, name: Seq<u8>)
    requires
        is_name(name),
        spec_file_name(p) != Some(name),
    ensures
        ({
            let out = spec_join(spec_dir_of(p), name);
            &&& spec_file_name(out) == Some(name)
            &&& spec_parent(out) == Some(spec_dir_of(p))
            &&& out != p
        }),
{
    law_join_splits_again(spec_dir_of(p), name);
    lemma_dir_of_trimmed(p);
}

/// A stem, a tail of three bytes or more and `.mkv` name a file, as long as
/// neither stem nor tail holds a separator.
proof fn lemma_composed_name(stem: Seq<u8>, tail: Seq<u8>)
    requires
        forall|i: int| 0 <= i < stem.len() ==> stem[i] != SEP,
        tail.len() >= 3,
        forall|i: int| 0 <= i < tail.len() ==> tail[i] != SEP,
    ensures
        is_name(stem + tail + bytes_of(".mkv"@)),
        (stem + tail + bytes_of(".mkv"@)).len() == stem.len() + tail.len() + 4,
{
    reveal_strlit(".mkv");
    lemma_ascii_bytes(".mkv"@);
    let mkv = bytes_of(".mkv"@);
    let name = stem + tail + mkv;
    assert forall|i: int| 0 <= i < name.len() implies name[i] != SEP by {
        if i < stem.len() {
            assert(name[i] == stem[i]);
        } else if i < stem.len() + tail.len() {
            assert(name[i] == tail[i - stem.len()]);
        } else {
            assert(name[i] == mkv[i - stem.len() - tail.len()]);
        }
    }
}

/// A file whose name is the stem of `p` with a tail of three bytes or more
/// (none of them a separator) and `.mkv` lies beside `p` under a name that
/// `p` does not have.
pub proof fn lemma_derived_file(p: Seq<u8>, tail: Seq<u8>)
    requires
        tail.len() >= 3,
        forall|i: int| 0 <= i < tail.len() ==> tail[i] != SEP,
        vstd::utf8::valid_utf8(tail),
    ensures
        ({
            let name = spec_stem_of(p) + tail + bytes_of(".mkv"@);
            let out = spec_join(spec_dir_of(p), name);
            &&& is_name(name)
            &&& spec_file_name(out) == Some(name)
            &&& spec_file_name(out) != spec_file_name(p)
            &&& spec_parent(out) == Some(spec_dir_of(p))
            &&& out != p
        }),
{
    lemma_stem_plain(p);
    let stem = spec_stem_of(p);
    let mkv = bytes_of(".mkv"@);
    let name = stem + tail + mkv;
    lemma_composed_name(stem, tail);
    if spec_file_name(p) == Some(name) {
        if !vstd::utf8::valid_utf8(name) {
            vstd::utf8::encode_utf8_valid_utf8("out"@);
            vstd::utf8::encode_utf8_valid_utf8(".mkv"@);
            vstd::utf8::valid_utf8_concat(stem, tail);
            vstd::utf8::valid_utf8_concat(stem + tail, mkv);
        }
        assert(false);
    }
    lemma_placed_beside(p, name);
}

/// The same of a name made from the stem byte for byte.
pub proof fn lemma_raw_derived_file(p: Seq<u8>, tail: Seq<u8>)
    requires
        tail.len() >= 3,
        forall|i: int| 0 <= i < tail.len() ==> tail[i] != SEP,
    ensures
        ({
            let name = spec_raw_stem_of(p) + tail + bytes_of(".mkv"@);
            let out = spec_join(spec_dir_of(p), name);
            &&& is_name(name)
            &&& spec_file_name(out) == Some(name)
            &&& spec_file_name(out) != spec_file_name(p)
            &&& spec_parent(out) == Some(spec_dir_of(p))
            &&& out != p
        }),
{
    reveal_strlit(".mkv");
    reveal_strlit("out");
    lemma_ascii_bytes(".mkv"@);
    lemma_ascii_bytes("out"@);
    lemma_file_name_plain(p);
    let stem = spec_raw_stem_of(p);
    assert forall|i: int| 0 <= i < stem.len() implies stem[i] != SEP by {
        match spec_file_name(p) {
            Some(n) => {
                assert(stem[i] == n[i]);
            },
            None => {
                assert(stem[i] == bytes_of("out"@)[i]);
            },
        }
    }
    lemma_composed_name(stem, tail);
    lemma_placed_beside(p, stem + tail + bytes_of(".mkv"@));
}

/// The name of an `.mkv` file is its stem and `.mkv`.
pub proof fn lemma_mkv_name(p: Seq<u8>)
    requires
        is_mkv(p),
    ensures
        spec_file_name(p) == Some(spec_raw_stem_of(p) + bytes_of(".mkv"@)),
{
    let n = spec_file_name(p)->0;
    let k = n.len() - bytes_of(".mkv"@).len();
    assert(n =~= n.take(k) + n.skip(k));
}

/// Texts with the same bytes are the same.
pub proof fn law_bytes_are_faithful(a: Seq<char>, b: Seq<char>)
    ensures
        bytes_of(a) == bytes_of(b) ==> a == b,
{
    vstd::utf8::encode_utf8_decode_utf8(a);
    vstd::utf8::encode_utf8_decode_utf8(b);
}

/// A suffix comes off again, and nothing else does.
pub proof fn law_suffix_comes_off(s: Seq<u8>, suffix: Seq<u8>)
    ensures
        spec_ends_with(s + suffix, suffix),
        spec_strip_suffix(s + suffix, suffix) == Some(s),
        spec_strip_suffix(s, suffix) matches Some(stem) ==> stem + suffix == s,
        spec_strip_suffix(s, suffix) is None ==> !(exists|stem: Seq<u8>| s == #[trigger] (stem
            + suffix)),
{
    assert((s + suffix).skip(s.len() as int) =~= suffix);
    assert((s + suffix).take(s.len() as int) =~= s);
    if spec_ends_with(s, suffix) {
        let k = s.len() - suffix.len();
        assert(s.take(k) + s.skip(k) =~= s);
    } else {
        assert forall|stem: Seq<u8>| s != #[trigger] (stem + suffix) by {
            if s == stem + suffix {
                assert((stem + suffix).skip(stem.len() as int) =~= suffix);
            }
        }
    }
}

/// A relative name is put behind the directory with one separator between
/// them, where the directory does not end in one; an absolute name stands for
/// itself.
pub proof fn law_join_is_plain(dir: Seq<u8>, name: Seq<u8>)
    ensures
        name.len() > 0 && name[0] == 47 ==> spec_join(dir, name) == name,
        !(name.len() > 0 && name[0] == 47) ==> {
            &&& spec_join(Seq::empty(), name) == name
            &&& spec_join(dir + seq![47u8], name) == dir + seq![47u8] + name
            &&& dir.len() > 0 && dir.last() != 47 ==> spec_join(dir, name) == dir + seq![47u8]
                + name
        },
{
    assert(Seq::<u8>::empty() + name =~= name);
}

/// Files derived from a path lie in its directory, or in `.` where it has
/// none, and are named from its file name without `.mkv`, or from `out` where
/// it has none.
pub proof fn law_derived_names(p: Seq<u8>)
    ensures
        spec_parent(p) matches Some(d) ==> spec_dir_of(p) == d,
        spec_parent(p) is None ==> spec_dir_of(p) == bytes_of("."@),
        spec_file_name(p) is None ==> spec_raw_stem_of(p) == bytes_of("out"@) && spec_stem_of(p)
            == bytes_of("out"@),
        spec_file_name(p) matches Some(n) ==> {
            &&& spec_raw_stem_of(p) + bytes_of(".mkv"@) == n || (spec_raw_stem_of(p) == n
                && !spec_ends_with(n, bytes_of(".mkv"@)))
            &&& vstd::utf8::valid_utf8(n) ==> spec_stem_of(p) == spec_raw_stem_of(p)
            &&& !vstd::utf8::valid_utf8(n) ==> spec_stem_of(p) == bytes_of("out"@)
        },
{
    reveal_strlit("out");
    reveal_strlit(".mkv");
    lemma_ascii_bytes("out"@);
    lemma_ascii_bytes(".mkv"@);
    if let Some(n) = spec_file_name(p) {
        law_suffix_comes_off(n, bytes_of(".mkv"@));
    }
}

/// A separator or `/.` behind a path does not matter. What ends in `/..` has
/// no name of its own and is held by what stands before.
pub proof fn law_trailing_pieces(p: Seq<u8>)
    requires
        p.len() > 0,
    ensures
        spec_file_name(p + seq![47u8]) == spec_file_name(p),
        spec_parent(p + seq![47u8]) == spec_parent(p),
        spec_file_name(p + seq![47u8, 46u8]) == spec_file_name(p),
        spec_parent(p + seq![47u8, 46u8]) == spec_parent(p),
        spec_file_name(p + seq![47u8, 46u8, 46u8]) is None,
        spec_parent(p + seq![47u8, 46u8, 46u8]) == Some(trimmed(p)),
{
    lemma_last_component(p, Seq::empty());
    lemma_last_component(p, seq![46u8]);
    lemma_last_component(p, seq![46u8, 46u8]);
    assert(p + seq![47u8] =~= p + seq![47u8] + Seq::<u8>::empty());
    assert(p + seq![47u8, 46u8] =~= p + seq![47u8] + seq![46u8]);
    assert(p + seq![47u8, 46u8, 46u8] =~= p + seq![47u8] + seq![46u8, 46u8]);
    assert(seq![46u8, 46u8].len() == 2 && seq![46u8].len() == 1);
}

/// The last piece of a path behind a separator.
proof fn lemma_last_component(p: Seq<u8>, piece: Seq<u8>)
    requires
        p.len() > 0,
        forall|i: int| 0 <= i < piece.len() ==> piece[i] != SEP,
    ensures
        ({
            let q = p + seq![47u8] + piece;
            &&& q.len() > body_start(q)
            &&& last_piece(q) == piece
            &&& cut(q) == p
        }),
{
    let q = p + seq![47u8] + piece;
    let i = p.len() as int;
    assert(q[0] == p[0]);
    assert forall|j: int| i < j < q.len() implies q[j] != SEP by {
        assert(q[j] == piece[j - i - 1]);
    }
    lemma_last_sep_unique(q, body_start(q), q.len() as int, i);
    assert(q.skip(i + 1) =~= piece);
    assert(q.take(i) =~= p);
}

/// The root and the empty path have no name and nothing that holds them, and a
/// bare name is held by the empty path.
pub proof fn law_bare_paths(name: Seq<u8>)
    requires
        is_name(name),
    ensures
        spec_file_name(Seq::empty()) is None,
        spec_parent(Seq::empty()) is None,
        spec_file_name(seq![47u8]) is None,
        spec_parent(seq![47u8]) is None,
        spec_file_name(name) == Some(name),
        spec_parent(name) == Some(Seq::<u8>::empty()),
{
    law_join_splits_again(Seq::empty(), name);
    assert(spec_join(Seq::empty(), name) =~= name);
    assert(trimmed(Seq::empty()) =~= Seq::empty());
}

} // verus!
