//! Plain text helpers: whitespace trimming, substring search and decimal
//! rendering, each specified over the sequence of characters.
use vstd::prelude::*;

verus! {

/// The Unicode `White_Space` characters.
pub open spec fn is_white(c: char) -> bool {
    ||| '\u{0009}' <= c <= '\u{000D}'
    ||| c == '\u{0020}'
    ||| c == '\u{0085}'
    ||| c == '\u{00A0}'
    ||| c == '\u{1680}'
    ||| '\u{2000}' <= c <= '\u{200A}'
    ||| c == '\u{2028}'
    ||| c == '\u{2029}'
    ||| c == '\u{202F}'
    ||| c == '\u{205F}'
    ||| c == '\u{3000}'
}

/// `s` without its leading whitespace.
pub open spec fn spec_trim_start(s: Seq<char>) -> Seq<char>
    decreases s.len(),
{
    if s.len() > 0 && is_white(s[0]) {
        spec_trim_start(s.drop_first())
    } else {
        s
    }
}

/// `s` without its trailing whitespace.
pub open spec fn spec_trim_end(s: Seq<char>) -> Seq<char>
    decreases s.len(),
{
    if s.len() > 0 && is_white(s.last()) {
        spec_trim_end(s.drop_last())
    } else {
        s
    }
}

/// `s` without leading and trailing whitespace.
pub open spec fn spec_trim(s: Seq<char>) -> Seq<char> {
    spec_trim_end(spec_trim_start(s))
}

/// The characters of `s`, in order.
pub fn chars_of(s: &str) -> (r: Vec<char>)
    ensures
        r@ == s@,
{
    let mut out: Vec<char> = Vec::new();
    for c in it: s.chars()
        invariant
            out@ == it.seq().take(it.index() as int),
            it.seq() == s@,
    {
        out.push(c);
        assert(out@ =~= it.seq().take(it.index() + 1));
    }
    assert(out@ =~= s@);
    out
}

/// Whether `c` is Unicode whitespace.
pub fn is_whitespace(c: char) -> (r: bool)
    ensures
        r == is_white(c),
{
    ('\u{0009}' <= c && c <= '\u{000D}') || c == '\u{0020}' || c == '\u{0085}' || c == '\u{00A0}'
        || c == '\u{1680}' || ('\u{2000}' <= c && c <= '\u{200A}') || c == '\u{2028}' || c
        == '\u{2029}' || c == '\u{202F}' || c == '\u{205F}' || c == '\u{3000}'
}

/// Trimming the front of `s` keeps a suffix of it.
proof fn lemma_trim_start_at(s: Seq<char>, i: int)
    requires
        0 <= i <= s.len(),
        forall|j: int| 0 <= j < i ==> is_white(#[trigger] s[j]),
        i < s.len() ==> !is_white(s[i]),
    ensures
        spec_trim_start(s) == s.skip(i),
    decreases i,
{
    if i > 0 {
        let rest = s.drop_first();
        assert forall|j: int| 0 <= j < i - 1 implies is_white(#[trigger] rest[j]) by {
            assert(rest[j] == s[j + 1]);
        }
        lemma_trim_start_at(rest, i - 1);
        assert(is_white(s[0]));
        assert(rest.skip(i - 1) =~= s.skip(i));
    } else {
        assert(s.skip(0) =~= s);
    }
}

/// Trimming the back of `s` keeps a prefix of it.
proof fn lemma_trim_end_at(s: Seq<char>, n: int)
    requires
        0 <= n <= s.len(),
        forall|j: int| n <= j < s.len() ==> is_white(#[trigger] s[j]),
        n > 0 ==> !is_white(s[n - 1]),
    ensures
        spec_trim_end(s) == s.take(n),
    decreases s.len() - n,
{
    if n < s.len() {
        assert(is_white(s[s.len() - 1]));
        lemma_trim_end_at(s.drop_last(), n);
        assert(s.drop_last().take(n) =~= s.take(n));
    } else {
        assert(s.take(n) =~= s);
    }
}

/// `s` without leading and trailing whitespace.
pub fn trim(s: &str) -> (r: &str)
    ensures
        r@ == spec_trim(s@),
{
    let chars = chars_of(s);
    let mut from: usize = 0;
    while from < chars.len() && is_whitespace(chars[from])
        invariant
            from <= chars.len(),
            forall|j: int| 0 <= j < from ==> is_white(#[trigger] chars@[j]),
        decreases chars.len() - from,
    {
        from += 1;
    }
    let mut to: usize = chars.len();
    while to > from && is_whitespace(chars[to - 1])
        invariant
            from <= to <= chars.len(),
            forall|j: int| to <= j < chars.len() ==> is_white(#[trigger] chars@[j]),
        decreases to,
    {
        to -= 1;
    }
    proof {
        let c = chars@;
        lemma_trim_start_at(c, from as int);
        let tail = c.skip(from as int);
        assert forall|j: int| to - from <= j < tail.len() implies is_white(#[trigger] tail[j]) by {
            assert(tail[j] == c[j + from]);
        }
        lemma_trim_end_at(tail, to - from);
        assert(tail.take(to - from) =~= c.subrange(from as int, to as int));
    }
    s.substring_char(from, to)
}

/// Whether `needle` stands in `hay` at position `i`.
pub open spec fn matches_at(hay: Seq<char>, needle: Seq<char>, i: int) -> bool {
    &&& 0 <= i
    &&& i + needle.len() <= hay.len()
    &&& hay.subrange(i, i + needle.len()) == needle
}

/// The first position from `i` on at which `needle` stands in `hay`.
pub open spec fn find_from(hay: Seq<char>, needle: Seq<char>, i: int) -> Option<int>
    decreases hay.len() - i + 1,
{
    if i + needle.len() > hay.len() {
        None
    } else if matches_at(hay, needle, i) {
        Some(i)
    } else {
        find_from(hay, needle, i + 1)
    }
}

/// The first position at which `needle` stands in `hay`.
pub open spec fn spec_find(hay: Seq<char>, needle: Seq<char>) -> Option<int> {
    find_from(hay, needle, 0)
}

/// Whether `needle` stands in `hay` at `i`, tested character by character.
fn matches_here(hay: &Vec<char>, needle: &Vec<char>, i: usize) -> (r: bool)
    requires
        i + needle.len() <= hay.len(),
    ensures
        r == matches_at(hay@, needle@, i as int),
{
    let mut k: usize = 0;
    while k < needle.len()
        invariant
            k <= needle.len(),
            i + needle.len() <= hay.len(),
            forall|j: int| 0 <= j < k ==> hay@[i + j] == #[trigger] needle@[j],
        decreases needle.len() - k,
    {
        if hay[i + k] != needle[k] {
            proof {
                let sub = hay@.subrange(i as int, i + needle@.len());
                assert(sub[k as int] == hay@[i + k]);
            }
            return false;
        }
        k += 1;
    }
    assert(hay@.subrange(i as int, i + needle@.len()) =~= needle@);
    true
}

/// The first position from `start` on at which `needle` stands in `hay`.
pub fn find(hay: &Vec<char>, needle: &Vec<char>, start: usize) -> (r: Option<usize>)
    requires
        start <= hay.len(),
    ensures
        match r {
            Some(i) => find_from(hay@, needle@, start as int) == Some(i as int) && start <= i && i
                + needle@.len() <= hay@.len(),
            None => find_from(hay@, needle@, start as int) is None,
        },
{
    let mut i: usize = start;
    while needle.len() <= hay.len() - i
        invariant
            start <= i <= hay.len(),
            find_from(hay@, needle@, start as int) == find_from(hay@, needle@, i as int),
        decreases hay.len() - i,
    {
        if matches_here(hay, needle, i) {
            return Some(i);
        }
        proof {
            if i == hay@.len() {
                assert(hay@.subrange(i as int, i as int) =~= needle@);
            }
        }
        i += 1;
    }
    None
}

/// `s` cut at the first `c`: what stands before it and what stands after it.
pub open spec fn spec_split_once(s: Seq<char>, c: char) -> Option<(Seq<char>, Seq<char>)> {
    match spec_find(s, seq![c]) {
        Some(i) => Some((s.take(i), s.skip(i + 1))),
        None => None,
    }
}

/// The first position found lies inside the text, and holds the needle.
pub proof fn lemma_find_from_sound(hay: Seq<char>, needle: Seq<char>, i: int)
    requires
        0 <= i,
    ensures
        find_from(hay, needle, i) matches Some(k) ==> {
            &&& i <= k
            &&& matches_at(hay, needle, k)
            &&& forall|j: int| i <= j < k ==> !matches_at(hay, needle, j)
        },
        find_from(hay, needle, i) is None ==> forall|j: int| i <= j ==> !matches_at(hay, needle, j),
    decreases hay.len() - i + 1,
{
    if i + needle.len() <= hay.len() && !matches_at(hay, needle, i) {
        lemma_find_from_sound(hay, needle, i + 1);
    }
}

/// The position of the first match is the one that no earlier match precedes.
pub proof fn lemma_find_from_unique(hay: Seq<char>, needle: Seq<char>, i: int, k: int)
    requires
        0 <= i <= k,
        matches_at(hay, needle, k),
        forall|j: int| i <= j < k ==> !matches_at(hay, needle, j),
    ensures
        find_from(hay, needle, i) == Some(k),
    decreases k - i,
{
    if i < k {
        lemma_find_from_unique(hay, needle, i + 1, k);
    }
}

/// `s` cut at the first `c`.
pub fn split_once<'a>(s: &'a str, c: char) -> (r: Option<(&'a str, &'a str)>)
    ensures
        match r {
            Some((a, b)) => spec_split_once(s@, c) == Some((a@, b@)),
            None => spec_split_once(s@, c) is None,
        },
{
    let chars = chars_of(s);
    let mut needle: Vec<char> = Vec::new();
    needle.push(c);
    assert(needle@ =~= seq![c]);
    match find(&chars, &needle, 0) {
        Some(i) => {
            let n: usize = chars.len();
            assert(s@.take(i as int) =~= s@.subrange(0, i as int));
            assert(s@.skip(i + 1) =~= s@.subrange(i + 1, n as int));
            Some((s.substring_char(0, i), s.substring_char(i + 1, n)))
        },
        None => None,
    }
}

/// The pieces of `s` between the occurrences of `c`; a text without `c` is
/// its own single piece.
pub open spec fn spec_split(s: Seq<char>, c: char) -> Seq<Seq<char>>
    decreases s.len(),
    via split_decreases
{
    match spec_split_once(s, c) {
        Some((a, b)) => seq![a] + spec_split(b, c),
        None => seq![s],
    }
}

#[via_fn]
proof fn split_decreases(s: Seq<char>, c: char) {
    lemma_find_from_sound(s, seq![c], 0);
}

/// The texts behind a list of string slices.
pub open spec fn views(list: Seq<&str>) -> Seq<Seq<char>> {
    list.map_values(|s: &str| s@)
}

/// The pieces of `s` between the occurrences of `c`.
pub fn split<'a>(s: &'a str, c: char) -> (r: Vec<&'a str>)
    ensures
        views(r@) == spec_split(s@, c),
{
    let mut out: Vec<&'a str> = Vec::new();
    let mut rest: &'a str = s;
    proof {
        assert(views(out@) + spec_split(s@, c) =~= spec_split(s@, c));
    }
    loop
        invariant
            views(out@) + spec_split(rest@, c) == spec_split(s@, c),
        decreases rest@.len(),
    {
        proof {
            lemma_find_from_sound(rest@, seq![c], 0);
        }
        let ghost before = out@;
        match split_once(rest, c) {
            Some((a, b)) => {
                out.push(a);
                proof {
                    assert(views(out@) =~= views(before) + seq![a@]);
                    assert(views(out@) + spec_split(b@, c) =~= views(before) + spec_split(
                        rest@,
                        c,
                    ));
                }
                rest = b;
            },
            None => {
                out.push(rest);
                proof {
                    assert(views(out@) =~= views(before) + seq![rest@]);
                }
                return out;
            },
        }
    }
}

/// The first line of `s`, without its line ending.
pub open spec fn spec_first_line(s: Seq<char>) -> Seq<char> {
    match spec_split_once(s, '\n') {
        Some((line, _)) => line,
        None => s,
    }
}

/// The first line of `s`, without its line ending.
pub fn first_line(s: &str) -> (r: &str)
    ensures
        r@ == spec_first_line(s@),
{
    match split_once(s, '\n') {
        Some((line, _)) => line,
        None => s,
    }
}

/// The decimal digit for `d`.
pub open spec fn digit(d: int) -> char {
    if d == 0 {
        '0'
    } else if d == 1 {
        '1'
    } else if d == 2 {
        '2'
    } else if d == 3 {
        '3'
    } else if d == 4 {
        '4'
    } else if d == 5 {
        '5'
    } else if d == 6 {
        '6'
    } else if d == 7 {
        '7'
    } else if d == 8 {
        '8'
    } else {
        '9'
    }
}

/// `n` in decimal, without leading zeros.
pub open spec fn digits(n: nat) -> Seq<char>
    decreases n,
{
    if n < 10 {
        seq![digit(n as int)]
    } else {
        digits(n / 10).push(digit((n % 10) as int))
    }
}

/// `n` in decimal, filled with zeros on the left to `width` characters.
pub open spec fn padded_digits(n: nat, width: nat) -> Seq<char>
    decreases width,
{
    if width <= digits(n).len() {
        digits(n)
    } else {
        seq!['0'] + padded_digits(n, (width - 1) as nat)
    }
}

/// The text of a single decimal digit.
fn digit_text(d: u8) -> (r: &'static str)
    requires
        d < 10,
    ensures
        r@ == seq![digit(d as int)],
{
    proof {
        reveal_strlit("0");
        reveal_strlit("1");
        reveal_strlit("2");
        reveal_strlit("3");
        reveal_strlit("4");
        reveal_strlit("5");
        reveal_strlit("6");
        reveal_strlit("7");
        reveal_strlit("8");
        reveal_strlit("9");
    }
    if d == 0 {
        assert("0"@ =~= seq!['0']);
        "0"
    } else if d == 1 {
        assert("1"@ =~= seq!['1']);
        "1"
    } else if d == 2 {
        assert("2"@ =~= seq!['2']);
        "2"
    } else if d == 3 {
        assert("3"@ =~= seq!['3']);
        "3"
    } else if d == 4 {
        assert("4"@ =~= seq!['4']);
        "4"
    } else if d == 5 {
        assert("5"@ =~= seq!['5']);
        "5"
    } else if d == 6 {
        assert("6"@ =~= seq!['6']);
        "6"
    } else if d == 7 {
        assert("7"@ =~= seq!['7']);
        "7"
    } else if d == 8 {
        assert("8"@ =~= seq!['8']);
        "8"
    } else {
        assert("9"@ =~= seq!['9']);
        "9"
    }
}

/// `n` in decimal, without leading zeros.
pub fn decimal(n: u128) -> (r: String)
    ensures
        r@ == digits(n as nat),
    decreases n,
{
    let last: u8 = (n % 10) as u8;
    let mut out = if n < 10 {
        String::new()
    } else {
        decimal(n / 10)
    };
    let ghost before = out@;
    out.append(digit_text(last));
    assert(out@ =~= before.push(digit(last as int)));
    out
}

/// `n` in decimal, filled with zeros on the left to `width` characters.
pub fn padded(n: u128, width: usize) -> (r: String)
    ensures
        r@ == padded_digits(n as nat, width as nat),
{
    let text = decimal(n);
    let len: usize = text.as_str().unicode_len();
    let mut out = text;
    let mut k: usize = len;
    while k < width
        invariant
            len <= k,
            len == digits(n as nat).len(),
            k <= width || k == len,
            out@ == padded_digits(n as nat, k as nat),
        decreases width - k,
    {
        let mut wider = String::new();
        wider.append("0");
        wider.append(out.as_str());
        proof {
            reveal_strlit("0");
            assert(wider@ =~= seq!['0'] + out@);
        }
        out = wider;
        k += 1;
    }
    proof {
        if width < len {
            assert(padded_digits(n as nat, width as nat) == digits(n as nat));
        }
    }
    out
}

/// A text is cut where the first `c` stands.
pub proof fn lemma_split_once_at(s: Seq<char>, c: char, k: int)
    requires
        0 <= k < s.len(),
        s[k] == c,
        forall|j: int| 0 <= j < k ==> s[j] != c,
    ensures
        spec_split_once(s, c) == Some((s.take(k), s.skip(k + 1))),
{
    assert forall|j: int| 0 <= j < k implies !matches_at(s, seq![c], j) by {
        assert(s.subrange(j, j + 1)[0] == s[j]);
    }
    assert(s.subrange(k, k + 1) =~= seq![c]);
    lemma_find_from_unique(s, seq![c], 0, k);
}

/// Where a text is cut does not depend on what follows it.
pub proof fn lemma_split_once_extended(s: Seq<char>, c: char, post: Seq<char>)
    requires
        spec_split_once(s, c) is Some,
    ensures
        ({
            let (a, b) = spec_split_once(s, c)->0;
            spec_split_once(s + post, c) == Some((a, b + post))
        }),
{
    lemma_find_from_sound(s, seq![c], 0);
    let k = spec_find(s, seq![c])->0;
    assert(s.subrange(k, k + 1)[0] == s[k]);
    assert forall|j: int| 0 <= j < k implies (s + post)[j] != c by {
        if s[j] == c {
            assert(s.subrange(j, j + 1) =~= seq![c]);
            assert(matches_at(s, seq![c], j));
        }
    }
    lemma_split_once_at(s + post, c, k);
    assert((s + post).take(k) =~= s.take(k));
    assert((s + post).skip(k + 1) =~= s.skip(k + 1) + post);
}

/// Decimal numbers consist of digits.
pub proof fn lemma_digits_plain(n: nat)
    ensures
        digits(n).len() > 0,
        forall|i: int| 0 <= i < digits(n).len() ==> '0' <= #[trigger] digits(n)[i] <= '9',
    decreases n,
{
    if n >= 10 {
        lemma_digits_plain(n / 10);
        let front = digits(n / 10);
        assert forall|i: int| 0 <= i < digits(n).len() implies '0' <= #[trigger] digits(n)[i]
            <= '9' by {
            if i < front.len() {
                assert(digits(n)[i] == front[i]);
            }
        }
    }
}

/// Different numbers are written differently.
pub proof fn law_decimal_is_faithful(a: nat, b: nat)
    requires
        digits(a) == digits(b),
    ensures
        a == b,
    decreases a,
{
    lemma_digits_plain(a / 10);
    lemma_digits_plain(b / 10);
    let (x, y) = (digits(a), digits(b));
    assert(x.last() == y.last());
    if a >= 10 {
        assert(x.drop_last() =~= digits(a / 10));
    }
    if b >= 10 {
        assert(y.drop_last() =~= digits(b / 10));
    }
    if a >= 10 && b >= 10 {
        law_decimal_is_faithful(a / 10, b / 10);
    }
}

/// Trimming leaves nothing to trim, and keeps nothing of a blank text.
pub proof fn law_trim_twice(s: Seq<char>)
    ensures
        spec_trim(spec_trim(s)) == spec_trim(s),
        (forall|i: int| 0 <= i < s.len() ==> is_white(#[trigger] s[i])) <==> spec_trim(s).len()
            == 0,
{
    lemma_trim_start_shape(s);
    let t = spec_trim_start(s);
    lemma_trim_end_shape(t);
    let u = spec_trim_end(t);
    lemma_trim_start_shape(u);
    if u.len() > 0 {
        assert(u[0] == t[0]);
        assert(!is_white(s[s.len() - t.len()]));
    } else if t.len() > 0 {
        assert(is_white(t[0]));
    }
}

/// What trimming the front leaves.
proof fn lemma_trim_start_shape(s: Seq<char>)
    ensures
        ({
            let t = spec_trim_start(s);
            &&& t.len() <= s.len()
            &&& t == s.skip(s.len() - t.len())
            &&& t.len() > 0 ==> !is_white(t[0])
            &&& forall|i: int| 0 <= i < s.len() - t.len() ==> is_white(#[trigger] s[i])
        }),
    decreases s.len(),
{
    if s.len() > 0 && is_white(s[0]) {
        let rest = s.drop_first();
        lemma_trim_start_shape(rest);
        let t = spec_trim_start(s);
        assert(rest.skip(rest.len() - t.len()) =~= s.skip(s.len() - t.len()));
        assert forall|i: int| 0 <= i < s.len() - t.len() implies is_white(#[trigger] s[i]) by {
            if i > 0 {
                assert(s[i] == rest[i - 1]);
            }
        }
    } else {
        assert(s.skip(0) =~= s);
    }
}

/// What trimming the back leaves.
proof fn lemma_trim_end_shape(s: Seq<char>)
    ensures
        ({
            let t = spec_trim_end(s);
            &&& t.len() <= s.len()
            &&& t == s.take(t.len() as int)
            &&& t.len() > 0 ==> !is_white(t.last())
            &&& forall|i: int| t.len() <= i < s.len() ==> is_white(#[trigger] s[i])
        }),
    decreases s.len(),
{
    if s.len() > 0 && is_white(s.last()) {
        lemma_trim_end_shape(s.drop_last());
        let t = spec_trim_end(s);
        assert(s.drop_last().take(t.len() as int) =~= s.take(t.len() as int));
        assert forall|i: int| t.len() <= i < s.len() implies is_white(#[trigger] s[i]) by {
            if i < s.len() - 1 {
                assert(s[i] == s.drop_last()[i]);
            }
        }
    } else {
        assert(s.take(s.len() as int) =~= s);
    }
}

/// The text of an optional string.
pub open spec fn opt_text(s: Option<String>) -> Option<Seq<char>> {
    match s {
        Some(t) => Some(t@),
        None => None,
    }
}

/// An optional text, empty where there is none.
pub open spec fn or_empty(s: Option<Seq<char>>) -> Seq<char> {
    match s {
        Some(t) => t,
        None => Seq::empty(),
    }
}

/// A copy of an optional string, empty where there is none.
pub fn copy_or_empty(s: &Option<String>) -> (r: String)
    ensures
        r@ == or_empty(opt_text(*s)),
{
    match s {
        Some(t) => t.clone(),
        None => {
            let r = String::new();
            assert(r@ =~= Seq::<char>::empty());
            r
        },
    }
}

/// The number that a decimal text stands for.
pub open spec fn number(s: Seq<char>) -> nat
    decreases s.len(),
{
    if s.len() == 0 {
        0
    } else {
        (number(s.drop_last()) * 10 + (s.last() as int - '0' as int)) as nat
    }
}

/// `10^w`.
pub open spec fn tens(w: nat) -> nat
    decreases w,
{
    if w == 0 {
        1
    } else {
        10 * tens((w - 1) as nat)
    }
}

/// Whether every character is a decimal digit.
pub open spec fn all_digits(s: Seq<char>) -> bool {
    forall|i: int| 0 <= i < s.len() ==> '0' <= #[trigger] s[i] <= '9'
}

/// A number in decimal reads back as that number, and has no leading zero.
pub proof fn law_decimal_reads_back(n: nat)
    ensures
        number(digits(n)) == n,
        all_digits(digits(n)),
        digits(n).len() > 0,
        digits(n).len() > 1 ==> digits(n)[0] != '0',
    decreases n,
{
    lemma_digits_plain(n);
    assert(number(Seq::<char>::empty()) == 0);
    assert(digits(n).last() == digit((n % 10) as int));
    assert(digit((n % 10) as int) as int - '0' as int == n % 10);
    if n >= 10 {
        law_decimal_reads_back(n / 10);
        let front = digits(n / 10);
        assert(digits(n).drop_last() =~= front);
        assert(digits(n)[0] == front[0]);
        if front.len() == 1 {
            assert(n / 10 < 10) by {
                if n / 10 >= 10 {
                    lemma_digits_plain(n / 100);
                    assert(digits(n / 10).len() >= 2);
                }
            }
            assert(front[0] == digit((n / 10) as int));
        }
    } else {
        assert(digits(n).drop_last() =~= Seq::<char>::empty());
    }
}

/// A leading zero does not change a number.
proof fn lemma_leading_zero(s: Seq<char>)
    ensures
        number(seq!['0'] + s) == number(s),
    decreases s.len(),
{
    let t = seq!['0'] + s;
    assert(number(Seq::<char>::empty()) == 0);
    if s.len() == 0 {
        assert(t.drop_last() =~= Seq::<char>::empty());
        assert(t.last() == '0');
    } else {
        assert(t.last() == s.last());
        assert(t.drop_last() =~= seq!['0'] + s.drop_last());
        lemma_leading_zero(s.drop_last());
    }
}

/// A number filled up with zeros reads back as that number, and is as wide as
/// asked for, or wider where it has to be.
pub proof fn law_padded_reads_back(n: nat, width: nat)
    ensures
        number(padded_digits(n, width)) == n,
        all_digits(padded_digits(n, width)),
        padded_digits(n, width).len() == (if width <= digits(n).len() {
            digits(n).len()
        } else {
            width
        }),
    decreases width,
{
    law_decimal_reads_back(n);
    if width > digits(n).len() {
        let rest = padded_digits(n, (width - 1) as nat);
        law_padded_reads_back(n, (width - 1) as nat);
        lemma_leading_zero(rest);
        let all = seq!['0'] + rest;
        assert forall|i: int| 0 <= i < all.len() implies '0' <= #[trigger] all[i] <= '9' by {
            if i > 0 {
                assert(all[i] == rest[i - 1]);
            }
        }
    }
}

/// A number below `10^w` takes at most `w` digits.
pub proof fn law_decimal_is_short(n: nat, w: nat)
    requires
        w > 0,
        n < tens(w),
    ensures
        digits(n).len() <= w,
    decreases w,
{
    if n >= 10 {
        assert(tens(w) == 10 * tens((w - 1) as nat));
        if w == 1 {
            assert(tens(0) == 1);
        } else {
            law_decimal_is_short(n / 10, (w - 1) as nat);
        }
    }
}

/// What trimming leaves is the text between white space: everything taken away
/// is white space, and what is left neither starts nor ends with any.
pub proof fn law_trim_is_the_core(left: Seq<char>, core: Seq<char>, right: Seq<char>)
    requires
        forall|i: int| 0 <= i < left.len() ==> is_white(#[trigger] left[i]),
        forall|i: int| 0 <= i < right.len() ==> is_white(#[trigger] right[i]),
        core.len() > 0 ==> !is_white(core[0]) && !is_white(core.last()),
    ensures
        spec_trim(left + core + right) == core,
{
    let s = left + core + right;
    lemma_trim_start_shape(s);
    let t = spec_trim_start(s);
    let cut = s.len() - t.len();
    if core.len() > 0 {
        assert(s[left.len() as int] == core[0]);
        if cut < left.len() {
            assert(t[0] == s[cut] == left[cut]);
        }
        assert(cut == left.len());
        assert(t =~= core + right);
        lemma_trim_end_shape(t);
        let u = spec_trim_end(t);
        assert(t[core.len() - 1] == core.last());
        if u.len() > core.len() {
            assert(u.last() == right[u.len() - 1 - core.len()]);
        }
        assert(u =~= core);
    } else {
        assert forall|i: int| 0 <= i < s.len() implies is_white(#[trigger] s[i]) by {
            if i < left.len() {
                assert(s[i] == left[i]);
            } else {
                assert(s[i] == right[i - left.len()]);
            }
        }
        law_trim_twice(s);
        assert(spec_trim(s) =~= core);
    }
}

/// A text cut at `c` consists of the two parts and `c` between them, and the
/// first part holds no `c`.
pub proof fn law_split_once_rejoins(a: Seq<char>, c: char, b: Seq<char>)
    requires
        forall|i: int| 0 <= i < a.len() ==> a[i] != c,
    ensures
        spec_split_once(a + seq![c] + b, c) == Some((a, b)),
        spec_split_once(a, c) is None,
{
    let s = a + seq![c] + b;
    lemma_split_once_at(s, c, a.len() as int);
    assert(s.take(a.len() as int) =~= a);
    assert(s.skip((a.len() + 1) as int) =~= b);
    lemma_find_from_sound(a, seq![c], 0);
    if let Some(k) = spec_find(a, seq![c]) {
        assert(a.subrange(k, k + 1)[0] == a[k]);
    }
}

/// Splitting takes off one piece after the other, and leaves a text without
/// `c` whole.
pub proof fn law_split_takes_pieces(a: Seq<char>, c: char, b: Seq<char>)
    requires
        forall|i: int| 0 <= i < a.len() ==> a[i] != c,
    ensures
        spec_split(a + seq![c] + b, c) == seq![a] + spec_split(b, c),
        spec_split(a, c) == seq![a],
{
    law_split_once_rejoins(a, c, b);
}

/// The first line ends before the first line break.
pub proof fn law_first_line(line: Seq<char>, rest: Seq<char>)
    requires
        forall|i: int| 0 <= i < line.len() ==> line[i] != '\n',
    ensures
        spec_first_line(line + seq!['\n'] + rest) == line,
        spec_first_line(line) == line,
{
    law_split_once_rejoins(line, '\n', rest);
}

/// Whether `t` is a decimal number with `width` digits behind the point that
/// stands for `n` parts of `10^width`.
pub open spec fn reads_as(t: Seq<char>, width: nat, n: nat) -> bool {
    let point = t.len() - width - 1;
    &&& point > 0
    &&& t[point] == '.'
    &&& all_digits(t.take(point))
    &&& all_digits(t.skip(point + 1))
    &&& number(t.take(point)) * tens(width) + number(t.skip(point + 1)) == n
}

/// White space is what Unicode counts as such.
pub proof fn law_white_space(c: char)
    ensures
        is_white(c) <==> {
            let u = c as u32;
            ||| 9 <= u <= 13
            ||| u == 32
            ||| u == 133
            ||| u == 160
            ||| u == 5760
            ||| 8192 <= u <= 8202
            ||| u == 8232
            ||| u == 8233
            ||| u == 8239
            ||| u == 8287
            ||| u == 12288
        },
{
}

/// A search gives the first place where the text looked for stands, and fails
/// exactly where it stands nowhere.
pub proof fn law_find_is_first(a: Seq<char>, needle: Seq<char>, b: Seq<char>)
    ensures
        spec_find(a + needle + b, needle) matches Some(i) && 0 <= i <= a.len() && (a + needle
            + b).subrange(i, i + needle.len()) == needle,
        forall|i: int|
            #![trigger a.subrange(i, i + needle.len())]
            spec_find(a, needle) is None && 0 <= i && i + needle.len() <= a.len() ==> a.subrange(
                i,
                i + needle.len(),
            ) != needle,
{
    let all = a + needle + b;
    lemma_find_from_sound(all, needle, 0);
    lemma_find_from_sound(a, needle, 0);
    assert(all.subrange(a.len() as int, (a.len() + needle.len()) as int) =~= needle);
    assert(matches_at(all, needle, a.len() as int));
    assert forall|i: int|
        #![trigger a.subrange(i, i + needle.len())]
        spec_find(a, needle) is None && 0 <= i && i + needle.len() <= a.len() implies a.subrange(
        i,
        i + needle.len(),
    ) != needle by {
        if a.subrange(i, i + needle.len()) == needle {
            assert(matches_at(a, needle, i));
        }
    }
}

} // verus!
