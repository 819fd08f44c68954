//! Text primitives shared by the rest of the library: decimal numbers,
//! line splitting, substring search and space removal.
use vstd::prelude::*;

verus! {

// ---------------------------------------------------------------------------
// Decimal numbers
// ---------------------------------------------------------------------------

/// The character of a single decimal digit `d` (0..=9).
pub open spec fn digit_char(d: nat) -> char {
    (d + 48) as char
}

/// The decimal representation of `n`, without sign or leading zeros.
pub open spec fn decimal(n: nat) -> Seq<char>
    decreases n,
{
    if n < 10 {
        seq![digit_char(n)]
    } else {
        decimal(n / 10).push(digit_char(n % 10))
    }
}

/// Whether `c` is an ASCII decimal digit.
pub open spec fn is_digit(c: char) -> bool {
    '0' <= c && c <= '9'
}

/// The value of the ASCII digit `c`.
pub open spec fn digit_value(c: char) -> int {
    c as int - 48
}

/// The value of a string of decimal digits, most significant first.
pub open spec fn digits_value(s: Seq<char>) -> int
    decreases s.len(),
{
    if s.len() == 0 {
        0
    } else {
        digits_value(s.drop_last()) * 10 + digit_value(s.last())
    }
}

/// Whether every character of `s` is a decimal digit.
pub open spec fn all_digits(s: Seq<char>) -> bool {
    forall|i: int| 0 <= i < s.len() ==> is_digit(#[trigger] s[i])
}

/// `s` without one leading `+`, if it has one.
pub open spec fn unsigned_part(s: Seq<char>) -> Seq<char> {
    if s.len() > 0 && s[0] == '+' {
        s.drop_first()
    } else {
        s
    }
}

/// What parsing `s` as an unsigned 64-bit decimal number gives: an optional
/// `+`, then at least one digit, and a value that fits in 64 bits.
pub open spec fn parse_u64_spec(s: Seq<char>) -> Option<u64> {
    let d = unsigned_part(s);
    if d.len() > 0 && all_digits(d) && digits_value(d) <= u64::MAX {
        Some(digits_value(d) as u64)
    } else {
        None
    }
}

proof fn lemma_digits_value_nonneg(s: Seq<char>)
    requires
        all_digits(s),
    ensures
        digits_value(s) >= 0,
    decreases s.len(),
{
    if s.len() > 0 {
        assert(is_digit(s[s.len() - 1]));
        lemma_digits_value_nonneg(s.drop_last());
    }
}

/// A string of digits is worth at least as much as any of its prefixes.
proof fn lemma_digits_value_prefix(s: Seq<char>, k: int)
    requires
        all_digits(s),
        0 <= k <= s.len(),
    ensures
        digits_value(s.take(k)) <= digits_value(s),
    decreases s.len(),
{
    if k < s.len() {
        assert(is_digit(s[s.len() - 1]));
        let p = s.drop_last();
        lemma_digits_value_prefix(p, k);
        assert(p.take(k) =~= s.take(k));
        lemma_digits_value_nonneg(p);
    } else {
        assert(s.take(k) =~= s);
    }
}

/// The decimal form of `n` is a non-empty string of digits worth `n`.
pub proof fn lemma_decimal_digits(n: nat)
    ensures
        decimal(n).len() > 0,
        all_digits(decimal(n)),
        digits_value(decimal(n)) == n,
        decimal(n)[0] != '+',
    decreases n,
{
    let r = (n % 10) as nat;
    assert(digit_value(digit_char(r)) == r);
    if n >= 10 {
        lemma_decimal_digits(n / 10);
        let d = decimal(n / 10);
        assert(decimal(n).drop_last() =~= d);
        assert(decimal(n)[0] == d[0]);
        assert((n / 10) * 10 + r == n);
        assert(decimal(n).last() == digit_char(r));
        assert(digits_value(decimal(n)) == digits_value(d) * 10 + digit_value(digit_char(r)));
    } else {
        assert(decimal(n).drop_last() =~= Seq::<char>::empty());
        assert(digits_value(decimal(n)) == digits_value(Seq::<char>::empty()) * 10 + digit_value(digit_char(r)));
    }
}

/// The text of a number reads back as the same number.
pub proof fn lemma_parse_decimal(n: u64)
    ensures
        parse_u64_spec(decimal(n as nat)) == Some(n),
{
    lemma_decimal_digits(n as nat);
}

/// The text of the digit `d`.
fn digit_text(d: u64) -> (res: &'static str)
    requires
        d < 10,
    ensures
        res@ == seq![digit_char(d as nat)],
{
    let digits = "0123456789";
    proof {
        reveal_strlit("0123456789");
    }
    let r = digits.substring_char(d as usize, d as usize + 1);
    assert(r@ =~= seq![digit_char(d as nat)]);
    r
}

/// The decimal text of `n`, as `u64::to_string` writes it.
pub fn u64_to_decimal(n: u64) -> (res: String)
    ensures
        res@ == decimal(n as nat),
    decreases n,
{
    if n < 10 {
        String::from_str(digit_text(n))
    } else {
        let mut s = u64_to_decimal(n / 10);
        s.append(digit_text(n % 10));
        s
    }
}

/// Parses `s` as `str::parse::<u64>` does: an optional `+` and at least one
/// ASCII digit, with no overflow.
pub fn parse_u64(s: &str) -> (res: Option<u64>)
    ensures
        res == parse_u64_spec(s@),
{
    let chars = chars_of(s);
    let n = chars.len();
    let mut i: usize = 0;
    if n > 0 && chars[0] == '+' {
        i = 1;
    }
    let start = i;
    let ghost d = unsigned_part(s@);
    assert(d =~= s@.subrange(start as int, n as int));
    if i == n {
        return None;
    }
    let mut value: u64 = 0;
    while i < n
        invariant
            start <= i <= n,
            n == chars@.len(),
            chars@ == s@,
            d == s@.subrange(start as int, n as int),
            d == unsigned_part(s@),
            d.len() > 0,
            all_digits(d.take(i - start)),
            value as int == digits_value(d.take(i - start)),
        decreases n - i,
    {
        let c = chars[i];
        let ghost k: int = i - start;
        assert(d[k] == c);
        if !('0' <= c && c <= '9') {
            assert(!all_digits(d));
            return None;
        }
        let dv = (c as u32 - '0' as u32) as u64;
        assert(d.take(k + 1).drop_last() =~= d.take(k));
        assert(all_digits(d.take(k + 1)));
        match value.checked_mul(10) {
            None => {
                proof {
                    lemma_overflow_is_final(d, k + 1);
                }
                return None;
            },
            Some(v) => match v.checked_add(dv) {
                None => {
                    proof {
                        lemma_overflow_is_final(d, k + 1);
                    }
                    return None;
                },
                Some(w) => {
                    value = w;
                },
            },
        }
        i = i + 1;
    }
    assert(d.take(n - start) =~= d);
    Some(value)
}

/// Once a prefix of digits is too large for 64 bits, so is the whole
/// string, or some later character is not a digit.
proof fn lemma_overflow_is_final(d: Seq<char>, k: int)
    requires
        0 < k <= d.len(),
        all_digits(d.take(k)),
        digits_value(d.take(k)) > u64::MAX,
    ensures
        !all_digits(d) || digits_value(d) > u64::MAX,
{
    if all_digits(d) {
        lemma_digits_value_prefix(d, k);
    }
}


// ---------------------------------------------------------------------------
// Lower case, spaces and substrings
// ---------------------------------------------------------------------------

/// What `str::to_lowercase` makes of `s`: the Unicode lower-case mapping,
/// character by character, with its context rules.
pub uninterp spec fn lowercase(s: Seq<char>) -> Seq<char>;

/// std's `str::to_lowercase`, which vstd leaves without a specification.
/// Claimed: the result is `lowercase` of the argument, and nothing else; the
/// Unicode tables themselves are not stated.
#[verifier::external_body]
pub(crate) fn to_lowercase(s: &str) -> (res: String)
    ensures
        res@ == lowercase(s@),
{
    s.to_lowercase()
}

/// `s` with every space removed.
pub open spec fn without_spaces(s: Seq<char>) -> Seq<char> {
    s.filter(|c: char| c != ' ')
}

/// Removes every space from `s`, as `s.replace(" ", "")` does.
pub fn remove_spaces(s: &str) -> (res: String)
    ensures
        res@ == without_spaces(s@),
{
    let chars = chars_of(s);
    let n = chars.len();
    let mut res = String::new();
    let mut i: usize = 0;
    while i < n
        invariant
            i <= n,
            n == chars@.len(),
            chars@ == s@,
            res@ == without_spaces(s@.take(i as int)),
        decreases n - i,
    {
        let c = chars[i];
        proof {
            reveal_with_fuel(Seq::<_>::filter, 1);
            assert(s@.take(i + 1).drop_last() =~= s@.take(i as int));
        }
        if c != ' ' {
            let piece = s.substring_char(i, i + 1);
            assert(piece@ =~= seq![c]);
            res.append(piece);
        }
        i = i + 1;
    }
    assert(s@.take(n as int) =~= s@);
    res
}

/// Whether `needle` occurs in `hay` starting at position `i`.
pub open spec fn occurs_at(hay: Seq<char>, needle: Seq<char>, i: int) -> bool {
    0 <= i && i + needle.len() <= hay.len() && hay.subrange(i, i + needle.len()) == needle
}

/// Whether `needle` occurs anywhere in `hay` (the empty text occurs everywhere).
pub open spec fn contains_text_spec(hay: Seq<char>, needle: Seq<char>) -> bool {
    exists|i: int| occurs_at(hay, needle, i)
}

/// A text contains a word exactly when the text is the word with something
/// (possibly nothing) before and after it: a word at the very start, in the
/// middle or at the very end is found, and nothing else is.
pub proof fn lemma_contains_text_iff_split(hay: Seq<char>, w: Seq<char>)
    ensures
        contains_text_spec(hay, w) <==> exists|a: Seq<char>, b: Seq<char>| hay == a + w + b,
{
    if contains_text_spec(hay, w) {
        let i = choose|i: int| occurs_at(hay, w, i);
        let a = hay.take(i);
        let b = hay.skip(i + w.len());
        assert(hay =~= a + w + b);
    }
    if exists|a: Seq<char>, b: Seq<char>| hay == a + w + b {
        let (a, b) = choose|a: Seq<char>, b: Seq<char>| hay == a + w + b;
        lemma_contains_text_of_split(a, w, b);
    }
}

/// A word placed anywhere in a text, in particular at its start, is found.
pub proof fn lemma_contains_text_of_split(a: Seq<char>, w: Seq<char>, b: Seq<char>)
    ensures
        contains_text_spec(a + w + b, w),
        occurs_at(a + w + b, w, a.len() as int),
{
    let hay = a + w + b;
    assert(hay.subrange(a.len() as int, (a.len() + w.len()) as int) =~= w);
    assert(occurs_at(hay, w, a.len() as int));
}

/// A text that contains a word still contains it once more text follows.
pub proof fn lemma_contains_text_extend(s: Seq<char>, w: Seq<char>, t: Seq<char>)
    requires
        contains_text_spec(s, w),
    ensures
        contains_text_spec(s + t, w),
{
    let k = choose|k: int| occurs_at(s, w, k);
    assert((s + t).subrange(k, k + w.len()) =~= s.subrange(k, k + w.len()));
    assert(occurs_at(s + t, w, k));
}

/// A text that contains a word still contains it once more text precedes.
pub proof fn lemma_contains_text_prepend(t: Seq<char>, s: Seq<char>, w: Seq<char>)
    requires
        contains_text_spec(s, w),
    ensures
        contains_text_spec(t + s, w),
{
    let k = choose|k: int| occurs_at(s, w, k);
    assert((t + s).subrange(k + t.len(), k + t.len() + w.len()) =~= s.subrange(k, k + w.len()));
    assert(occurs_at(t + s, w, k + t.len()));
}

/// Whether `w` occurs at `i` is decided by the characters there alone: at
/// every position where it fits, `w` occurs exactly when the text there
/// equals `w`.
pub proof fn lemma_occurs_at_iff_equal(hay: Seq<char>, w: Seq<char>, i: int)
    requires
        0 <= i <= hay.len() - w.len(),
    ensures
        occurs_at(hay, w, i) <==> hay.subrange(i, i + w.len()) == w,
{
}

/// Whether `needle` occurs in `hay`, as `str::contains` answers.
pub fn contains_text(hay: &str, needle: &str) -> (res: bool)
    ensures
        res == contains_text_spec(hay@, needle@),
{
    let h = chars_of(hay);
    let nd = chars_of(needle);
    let hn = h.len();
    let nn = nd.len();
    if nn > hn {
        assert forall|i: int| !occurs_at(hay@, needle@, i) by {}
        return false;
    }
    let mut i: usize = 0;
    while i <= hn - nn
        invariant
            nn <= hn,
            hn == h@.len(),
            nn == nd@.len(),
            h@ == hay@,
            nd@ == needle@,
            i <= hn - nn + 1,
            forall|k: int| 0 <= k < i ==> !occurs_at(hay@, needle@, k),
        decreases hn - nn + 1 - i,
    {
        let mut j: usize = 0;
        let mut same = true;
        while j < nn
            invariant
                nn <= hn,
                i <= hn - nn,
                hn == h@.len(),
                nn == nd@.len(),
                j <= nn,
                same == (forall|m: int| 0 <= m < j ==> h@[i + m] == nd@[m]),
            decreases nn - j,
        {
            if h[i + j] != nd[j] {
                same = false;
            }
            j = j + 1;
        }
        if same {
            assert(hay@.subrange(i as int, i + nn) =~= needle@);
            assert(occurs_at(hay@, needle@, i as int));
            return true;
        }
        assert(!occurs_at(hay@, needle@, i as int)) by {
            let m = choose|m: int| 0 <= m < nn && h@[i + m] != nd@[m];
            if hay@.subrange(i as int, i + nn) == needle@ {
                assert(hay@.subrange(i as int, i + nn)[m] == h@[i + m]);
            }
        }
        i = i + 1;
    }
    assert forall|k: int| !occurs_at(hay@, needle@, k) by {
        if 0 <= k && k + nn <= hn {
            assert(k < i);
        }
    }
    false
}


/// The position of the first `c` in `s`, counted in characters, as
/// `str::find` locates it.
pub fn find_char(s: &str, c: char) -> (res: Option<usize>)
    ensures
        match res {
            Some(p) => s@.index_of_first(c) == Some(p as int) && p < s@.len() && s@[p as int] == c,
            None => s@.index_of_first(c) is None,
        },
{
    let chars = chars_of(s);
    let n = chars.len();
    let mut i: usize = 0;
    proof {
        s@.index_of_first_ensures(c);
    }
    while i < n
        invariant
            i <= n,
            n == chars@.len(),
            chars@ == s@,
            forall|j: int| 0 <= j < i ==> s@[j] != c,
        decreases n - i,
    {
        if chars[i] == c {
            proof {
                s@.index_of_first_ensures(c);
                assert(s@.contains(c));
                let k = s@.index_of_first(c).unwrap();
                if k < i {
                } else if k > i {
                }
            }
            return Some(i);
        }
        i = i + 1;
    }
    None
}

// ---------------------------------------------------------------------------
// Lines
// ---------------------------------------------------------------------------

/// The pieces of `s` between occurrences of `sep` (one more than there are
/// separators).
pub open spec fn fields(s: Seq<char>, sep: char) -> Seq<Seq<char>>
    decreases s.len(),
{
    if s.len() == 0 {
        seq![Seq::<char>::empty()]
    } else {
        let f = fields(s.drop_last(), sep);
        if s.last() == sep {
            f.push(Seq::<char>::empty())
        } else {
            f.update(f.len() - 1, f.last().push(s.last()))
        }
    }
}

/// `line` without one trailing carriage return.
pub open spec fn strip_cr(line: Seq<char>) -> Seq<char> {
    if line.len() > 0 && line.last() == '\r' {
        line.drop_last()
    } else {
        line
    }
}

/// The lines of `s`, as `str::lines` yields them: the pieces between line
/// feeds, each that ends with a line feed losing one `\r` before it, and no
/// empty piece after a final line feed.
pub open spec fn lines(s: Seq<char>) -> Seq<Seq<char>> {
    if s.len() == 0 {
        Seq::empty()
    } else {
        let f = fields(s, '\n');
        let done = f.drop_last().map_values(|l: Seq<char>| strip_cr(l));
        if s.last() == '\n' {
            done
        } else {
            done.push(f.last())
        }
    }
}

/// There is always at least one piece.
pub proof fn lemma_fields_nonempty(s: Seq<char>, sep: char)
    ensures
        fields(s, sep).len() >= 1,
    decreases s.len(),
{
    if s.len() > 0 {
        lemma_fields_nonempty(s.drop_last(), sep);
    }
}

/// Text written one line per row, every row ending with a line feed.
pub open spec fn terminated(ls: Seq<Seq<char>>) -> Seq<char>
    decreases ls.len(),
{
    if ls.len() == 0 {
        Seq::empty()
    } else {
        terminated(ls.drop_last()) + ls.last() + seq!['\n']
    }
}

/// A row that reads back unchanged: no line feed in it and no trailing
/// carriage return.
pub open spec fn plain_line(l: Seq<char>) -> bool {
    !l.contains('\n') && !(l.len() > 0 && l.last() == '\r')
}

proof fn lemma_fields_append(s: Seq<char>, l: Seq<char>, sep: char)
    requires
        !l.contains(sep),
    ensures
        fields(s + l, sep).len() == fields(s, sep).len(),
        fields(s + l, sep) == fields(s, sep).update(
            fields(s, sep).len() - 1,
            fields(s, sep).last() + l,
        ),
    decreases l.len(),
{
    lemma_fields_nonempty(s, sep);
    if l.len() == 0 {
        assert(s + l =~= s);
        assert(fields(s, sep).last() + l =~= fields(s, sep).last());
        assert(fields(s, sep).update(fields(s, sep).len() - 1, fields(s, sep).last())
            =~= fields(s, sep));
    } else {
        let l2 = l.drop_last();
        assert(!l2.contains(sep)) by {
            if l2.contains(sep) {
                let i = choose|i: int| 0 <= i < l2.len() && l2[i] == sep;
                assert(l[i] == sep);
            }
        }
        lemma_fields_append(s, l2, sep);
        assert((s + l).drop_last() =~= s + l2);
        assert((s + l).last() == l.last());
        assert(l.last() != sep) by {
            assert(l[l.len() - 1] == l.last());
        }
        let f = fields(s, sep);
        assert(fields(s + l, sep) =~= f.update(f.len() - 1, f.last() + l)) by {
            assert((f.last() + l2).push(l.last()) =~= f.last() + l);
        }
    }
}

proof fn lemma_fields_terminated(ls: Seq<Seq<char>>)
    requires
        forall|i: int| 0 <= i < ls.len() ==> plain_line(#[trigger] ls[i]),
    ensures
        fields(terminated(ls), '\n') == ls.push(Seq::<char>::empty()),
    decreases ls.len(),
{
    if ls.len() == 0 {
        assert(fields(terminated(ls), '\n') =~= ls.push(Seq::<char>::empty()));
    } else {
        let p = ls.drop_last();
        assert forall|i: int| 0 <= i < p.len() implies plain_line(#[trigger] p[i]) by {
            assert(p[i] == ls[i]);
        }
        lemma_fields_terminated(p);
        let l = ls.last();
        assert(plain_line(ls[ls.len() - 1]));
        let t = terminated(p) + l;
        lemma_fields_append(terminated(p), l, '\n');
        assert((t + seq!['\n']).drop_last() =~= t);
        assert(terminated(ls) == t + seq!['\n']);
        assert(fields(terminated(ls), '\n') =~= ls.push(Seq::<char>::empty())) by {
            assert(Seq::<char>::empty() + l =~= l);
        }
    }
}

/// Text written one plain row per line reads back as those rows.
pub proof fn lemma_lines_of_terminated(ls: Seq<Seq<char>>)
    requires
        forall|i: int| 0 <= i < ls.len() ==> plain_line(#[trigger] ls[i]),
    ensures
        lines(terminated(ls)) == ls,
{
    lemma_fields_terminated(ls);
    if ls.len() > 0 {
        let t = terminated(ls);
        assert(t.last() == '\n');
        let f = fields(t, '\n');
        assert(f.drop_last() =~= ls);
        assert forall|i: int| 0 <= i < ls.len() implies strip_cr(#[trigger] ls[i]) == ls[i] by {
            assert(plain_line(ls[i]));
        }
        assert(f.drop_last().map_values(|l: Seq<char>| strip_cr(l)) =~= ls);
    }
}

/// The views of a sequence of strings.
pub open spec fn string_views(v: Seq<String>) -> Seq<Seq<char>> {
    v.map_values(|s: String| s@)
}

/// The views of a vector of string slices.
pub open spec fn str_views(v: Seq<&str>) -> Seq<Seq<char>> {
    v.map_values(|l: &str| l@)
}

/// Splits `content` into lines, as `str::lines` does.
pub fn lines_of<'a>(content: &'a str) -> (res: Vec<&'a str>)
    ensures
        str_views(res@) == lines(content@),
{
    let chars = chars_of(content);
    let n = chars.len();
    let mut done: Vec<&'a str> = Vec::new();
    let mut start: usize = 0;
    let mut i: usize = 0;
    proof {
        lemma_fields_nonempty(content@, '\n');
    }
    while i < n
        invariant
            start <= i <= n,
            n == chars@.len(),
            chars@ == content@,
            fields(content@.take(i as int), '\n').len() >= 1,
            str_views(done@) == fields(content@.take(i as int), '\n').drop_last().map_values(
                |l: Seq<char>| strip_cr(l),
            ),
            fields(content@.take(i as int), '\n').last() == content@.subrange(start as int, i as int),
        decreases n - i,
    {
        let c = chars[i];
        let ghost t = content@.take(i + 1);
        let ghost f0 = fields(content@.take(i as int), '\n');
        assert(t.drop_last() =~= content@.take(i as int));
        assert(t.last() == c);
        if c == '\n' {
            let mut end = i;
            if i > start && chars[i - 1] == '\r' {
                end = i - 1;
            }
            let line = content.substring_char(start, end);
            assert(line@ =~= strip_cr(content@.subrange(start as int, i as int)));
            let ghost old_done = done@;
            done.push(line);
            start = i + 1;
            assert(str_views(done@) =~= str_views(old_done).push(line@));
            assert(fields(t, '\n') == f0.push(Seq::<char>::empty()));
            assert(fields(t, '\n').drop_last() =~= f0);
            assert(f0 =~= f0.drop_last().push(f0.last()));
            assert(f0.map_values(|l: Seq<char>| strip_cr(l)) =~= f0.drop_last().map_values(
                |l: Seq<char>| strip_cr(l),
            ).push(strip_cr(f0.last())));
            assert(str_views(done@) =~= fields(t, '\n').drop_last().map_values(
                |l: Seq<char>| strip_cr(l),
            ));
            assert(content@.subrange(start as int, i + 1) =~= Seq::<char>::empty());
        } else {
            assert(fields(t, '\n') == f0.update(f0.len() - 1, f0.last().push(c)));
            assert(fields(t, '\n').drop_last() =~= f0.drop_last());
            assert(content@.subrange(start as int, i + 1) =~= content@.subrange(
                start as int,
                i as int,
            ).push(c));
        }
        i = i + 1;
    }
    assert(content@.take(n as int) =~= content@);
    if start < n {
        let last = content.substring_char(start, n);
        done.push(last);
        assert(content@.last() != '\n') by {
            if content@.last() == '\n' {
                assert(fields(content@.take(n - 1), '\n').len() >= 1) by {
                    lemma_fields_nonempty(content@.take(n - 1), '\n');
                }
                assert(content@.take(n as int).drop_last() =~= content@.take(n - 1));
            }
        }
        assert(str_views(done@) =~= lines(content@));
    } else {
        if n > 0 {
            assert(content@.last() == '\n') by {
                if content@.last() != '\n' {
                    assert(content@.take(n as int).drop_last() =~= content@.take(n - 1));
                    lemma_fields_nonempty(content@.take(n - 1), '\n');
                    let f = fields(content@.take(n - 1), '\n');
                    assert(fields(content@, '\n').last() == f.last().push(content@.last()));
                }
            }
        }
        assert(str_views(done@) =~= lines(content@));
    }
    done
}

// ---------------------------------------------------------------------------
// Characters of a string
// ---------------------------------------------------------------------------

/// The characters of `s`, in order.
pub fn chars_of(s: &str) -> (res: Vec<char>)
    ensures
        res@ == s@,
{
    let mut res: Vec<char> = Vec::new();
    for c in it: s.chars()
        invariant
            res@ == it.seq().take(it.index() as int),
    {
        res.push(c);
    }
    res
}

} // verus!
