//! Text handling shared by the command builders and the listing readers.

use vstd::prelude::*;

verus! {

/// The characters of a string, one by one.
pub fn chars_of(s: &str) -> (v: Vec<char>)
    ensures
        v@ == s@,
{
    let n = s.unicode_len();
    let mut v: Vec<char> = Vec::new();
    let mut i: usize = 0;
    while i < n
        invariant
            n == s@.len(),
            i <= n,
            v@ == s@.take(i as int),
        decreases n - i,
    {
        v.push(s.get_char(i));
        i = i + 1;
        assert(v@ =~= s@.take(i as int));
    }
    assert(s@.take(n as int) =~= s@);
    v
}

/// `needle` occurs in `hay` starting at position `at`.
pub open spec fn occurs_at(hay: Seq<char>, needle: Seq<char>, at: int) -> bool {
    0 <= at && at + needle.len() <= hay.len() && hay.subrange(at, at + needle.len()) == needle
}

fn occurs_at_exec(hay: &Vec<char>, needle: &Vec<char>, at: usize) -> (r: bool)
    requires
        at + needle@.len() <= hay@.len(),
    ensures
        r == occurs_at(hay@, needle@, at as int),
{
    let hl = hay.len();
    let mut j: usize = 0;
    while j < needle.len()
        invariant
            hl == hay@.len(),
            at + needle@.len() <= hay@.len(),
            j <= needle@.len(),
            forall|k: int| 0 <= k < j ==> hay@[at + k] == needle@[k],
        decreases needle@.len() - j,
    {
        if hay[at + j] != needle[j] {
            assert(hay@.subrange(at as int, at + needle@.len())[j as int] != needle@[j as int]);
            return false;
        }
        j = j + 1;
    }
    assert(hay@.subrange(at as int, at + needle@.len()) =~= needle@);
    true
}

/// Whether `hay` begins with `prefix`.
pub fn starts_with(hay: &str, prefix: &str) -> (r: bool)
    ensures
        r == occurs_at(hay@, prefix@, 0),
{
    let h = chars_of(hay);
    let p = chars_of(prefix);
    if p.len() > h.len() {
        return false;
    }
    occurs_at_exec(&h, &p, 0)
}

/// The views of a list of strings.
pub open spec fn views(v: Seq<String>) -> Seq<Seq<char>> {
    v.map_values(|x: String| x@)
}

/// Reading `s` from the left and cutting it at every `sep`: the pieces already
/// closed, and the piece still open.
pub open spec fn cut(s: Seq<char>, sep: char) -> (Seq<Seq<char>>, Seq<char>)
    decreases s.len(),
{
    if s.len() == 0 {
        (Seq::empty(), Seq::empty())
    } else {
        let (done, open) = cut(s.drop_last(), sep);
        if s.last() == sep {
            (done.push(open), Seq::empty())
        } else {
            (done, open.push(s.last()))
        }
    }
}

/// The pieces of `s` between the occurrences of `sep`, as `str::split` with a
/// char pattern yields them: one more piece than there are separators, empty
/// pieces included.
pub open spec fn split_on(s: Seq<char>, sep: char) -> Seq<Seq<char>> {
    cut(s, sep).0.push(cut(s, sep).1)
}

/// The non-empty pieces of `s` between spaces, as
/// `s.split(" ").filter(|p| !p.is_empty())` yields them.
pub open spec fn fields(s: Seq<char>) -> Seq<Seq<char>> {
    split_on(s, ' ').filter(|p: Seq<char>| p.len() > 0)
}

proof fn lemma_cut_step(s: Seq<char>, sep: char, i: int)
    requires
        0 <= i < s.len(),
    ensures
        cut(s.take(i + 1), sep) == (if s[i] == sep {
            (cut(s.take(i), sep).0.push(cut(s.take(i), sep).1), Seq::<char>::empty())
        } else {
            (cut(s.take(i), sep).0, cut(s.take(i), sep).1.push(s[i]))
        }),
{
    assert(s.take(i + 1).drop_last() =~= s.take(i));
}

proof fn lemma_filter_push(d: Seq<Seq<char>>, c: Seq<char>)
    ensures
        d.push(c).filter(|p: Seq<char>| p.len() > 0) == (if c.len() > 0 {
            d.filter(|p: Seq<char>| p.len() > 0).push(c)
        } else {
            d.filter(|p: Seq<char>| p.len() > 0)
        }),
{
    reveal(Seq::filter);
    assert(d.push(c).drop_last() =~= d);
}

/// Splits `s` at every `sep`, as `s.split(sep).collect::<Vec<_>>()` does.
pub fn split(s: &str, sep: char) -> (pieces: Vec<String>)
    ensures
        views(pieces@) == split_on(s@, sep),
{
    let cs = chars_of(s);
    let n = cs.len();
    let mut pieces: Vec<String> = Vec::new();
    let mut start: usize = 0;
    let mut i: usize = 0;
    while i < n
        invariant
            cs@ == s@,
            n == s@.len(),
            start <= i <= n,
            views(pieces@) == cut(s@.take(i as int), sep).0,
            s@.subrange(start as int, i as int) == cut(s@.take(i as int), sep).1,
        decreases n - i,
    {
        proof {
            lemma_cut_step(s@, sep, i as int);
        }
        if cs[i] == sep {
            let piece = String::from_str(s.substring_char(start, i));
            pieces.push(piece);
            start = i + 1;
            assert(views(pieces@) =~= cut(s@.take(i + 1), sep).0);
        } else {
            assert(s@.subrange(start as int, i + 1) =~= s@.subrange(start as int, i as int).push(
                s@[i as int],
            ));
        }
        i = i + 1;
        assert(s@.subrange(start as int, i as int) == cut(s@.take(i as int), sep).1);
    }
    assert(s@.take(n as int) =~= s@);
    let last = String::from_str(s.substring_char(start, n));
    pieces.push(last);
    assert(views(pieces@) =~= split_on(s@, sep));
    pieces
}

/// The non-empty pieces of `s` between spaces.
pub fn split_fields(s: &str) -> (out: Vec<String>)
    ensures
        views(out@) == fields(s@),
{
    let cs = chars_of(s);
    let n = cs.len();
    let mut out: Vec<String> = Vec::new();
    let mut start: usize = 0;
    let mut i: usize = 0;
    while i < n
        invariant
            cs@ == s@,
            n == s@.len(),
            start <= i <= n,
            views(out@) == cut(s@.take(i as int), ' ').0.filter(|p: Seq<char>| p.len() > 0),
            s@.subrange(start as int, i as int) == cut(s@.take(i as int), ' ').1,
        decreases n - i,
    {
        proof {
            lemma_cut_step(s@, ' ', i as int);
            lemma_filter_push(cut(s@.take(i as int), ' ').0, cut(s@.take(i as int), ' ').1);
        }
        if cs[i] == ' ' {
            if start < i {
                let piece = String::from_str(s.substring_char(start, i));
                out.push(piece);
            }
            start = i + 1;
            assert(views(out@) =~= cut(s@.take(i + 1), ' ').0.filter(|p: Seq<char>| p.len() > 0));
        } else {
            assert(s@.subrange(start as int, i + 1) =~= s@.subrange(start as int, i as int).push(
                s@[i as int],
            ));
        }
        i = i + 1;
        assert(s@.subrange(start as int, i as int) == cut(s@.take(i as int), ' ').1);
    }
    assert(s@.take(n as int) =~= s@);
    proof {
        lemma_filter_push(cut(s@, ' ').0, cut(s@, ' ').1);
    }
    if start < n {
        let last = String::from_str(s.substring_char(start, n));
        out.push(last);
    }
    assert(views(out@) =~= fields(s@));
    out
}


/// The characters that have the Unicode White_Space property, which is what
/// `char::is_whitespace` and `str::trim` go by.
pub open spec fn is_white_space(c: char) -> bool {
    ||| ('\u{9}' <= c && c <= '\u{d}')
    ||| c == ' '
    ||| c == '\u{85}'
    ||| c == '\u{a0}'
    ||| c == '\u{1680}'
    ||| ('\u{2000}' <= c && c <= '\u{200a}')
    ||| c == '\u{2028}'
    ||| c == '\u{2029}'
    ||| c == '\u{202f}'
    ||| c == '\u{205f}'
    ||| c == '\u{3000}'
}

fn white_space(c: char) -> (r: bool)
    ensures
        r == is_white_space(c),
{
    ('\u{9}' <= c && c <= '\u{d}') || c == ' ' || c == '\u{85}' || c == '\u{a0}' || c
        == '\u{1680}' || ('\u{2000}' <= c && c <= '\u{200a}') || c == '\u{2028}' || c
        == '\u{2029}' || c == '\u{202f}' || c == '\u{205f}' || c == '\u{3000}'
}

/// `s` without its leading and trailing white space, as `str::trim` gives it:
/// the part from the first to the last character that is not white space.
pub open spec fn trimmed(s: Seq<char>) -> Seq<char> {
    if exists|i: int| 0 <= i < s.len() && !is_white_space(s[i]) {
        let a = choose|a: int|
            0 <= a < s.len() && !is_white_space(s[a]) && forall|k: int|
                0 <= k < a ==> is_white_space(s[k]);
        let b = choose|b: int|
            0 <= b < s.len() && !is_white_space(s[b]) && forall|k: int|
                b < k < s.len() ==> is_white_space(s[k]);
        s.subrange(a, b + 1)
    } else {
        Seq::empty()
    }
}

/// The part of `s` from the first to the last character that is not white space.
pub fn trim(s: &str) -> (r: String)
    ensures
        r@ == trimmed(s@),
{
    let cs = chars_of(s);
    let n = cs.len();
    let mut a: usize = 0;
    while a < n && white_space(cs[a])
        invariant
            cs@ == s@,
            n == s@.len(),
            a <= n,
            forall|k: int| 0 <= k < a ==> is_white_space(s@[k]),
        decreases n - a,
    {
        a = a + 1;
    }
    if a == n {
        assert(!exists|i: int| 0 <= i < s@.len() && !is_white_space(s@[i]));
        return String::new();
    }
    let mut b: usize = n - 1;
    while white_space(cs[b])
        invariant
            cs@ == s@,
            n == s@.len(),
            a <= b < n,
            !is_white_space(s@[a as int]),
            forall|k: int| b < k < n ==> is_white_space(s@[k]),
        decreases b,
    {
        b = b - 1;
    }
    proof {
        let ga = choose|x: int|
            0 <= x < s@.len() && !is_white_space(s@[x]) && forall|k: int|
                0 <= k < x ==> is_white_space(s@[k]);
        let gb = choose|x: int|
            0 <= x < s@.len() && !is_white_space(s@[x]) && forall|k: int|
                x < k < s@.len() ==> is_white_space(s@[k]);
        assert(exists|i: int| 0 <= i < s@.len() && !is_white_space(s@[i]));
        assert(0 <= a as int && a < s@.len() && !is_white_space(s@[a as int]) && forall|k: int|
            0 <= k < a ==> is_white_space(s@[k]));
        assert(0 <= b as int && b < s@.len() && !is_white_space(s@[b as int]) && forall|k: int|
            b < k < s@.len() ==> is_white_space(s@[k]));
        if ga < a {
            assert(is_white_space(s@[ga]));
        }
        if a < ga {
            assert(is_white_space(s@[a as int]));
        }
        if gb < b {
            assert(is_white_space(s@[b as int]));
        }
        if b < gb {
            assert(is_white_space(s@[gb]));
        }
    }
    String::from_str(s.substring_char(a, b + 1))
}

/// The value of a string of decimal digits.
pub open spec fn decimal_value(d: Seq<char>) -> nat
    decreases d.len(),
{
    if d.len() == 0 {
        0
    } else {
        decimal_value(d.drop_last()) * 10 + ((d.last() as nat) - ('0' as nat)) as nat
    }
}

/// Every character of `d` is an ASCII digit.
pub open spec fn all_digits(d: Seq<char>) -> bool {
    forall|i: int| 0 <= i < d.len() ==> '0' <= #[trigger] d[i] && d[i] <= '9'
}

/// What `s.parse::<u64>()` gives: an optional `+`, then one or more ASCII
/// digits whose value fits in a `u64`; anything else is refused.
pub open spec fn parsed_u64(s: Seq<char>) -> Option<u64> {
    let d = if s.len() > 0 && s[0] == '+' {
        s.drop_first()
    } else {
        s
    };
    if d.len() > 0 && all_digits(d) && decimal_value(d) <= u64::MAX {
        Some(decimal_value(d) as u64)
    } else {
        None
    }
}

proof fn lemma_decimal_grows(d: Seq<char>, i: int, j: int)
    requires
        0 <= i <= j <= d.len(),
        all_digits(d),
    ensures
        decimal_value(d.take(i)) <= decimal_value(d.take(j)),
    decreases j - i,
{
    if i < j {
        lemma_decimal_grows(d, i, j - 1);
        assert(d.take(j).drop_last() =~= d.take(j - 1));
    }
}

/// Reads a decimal `u64` the way `str::parse::<u64>` does.
pub fn parse_u64(s: &str) -> (r: Option<u64>)
    ensures
        r == parsed_u64(s@),
{
    let cs = chars_of(s);
    let n = cs.len();
    let start: usize = if n > 0 && cs[0] == '+' {
        1
    } else {
        0
    };
    let ghost d = if s@.len() > 0 && s@[0] == '+' {
        s@.drop_first()
    } else {
        s@
    };
    assert(d =~= s@.subrange(start as int, n as int));
    if start == n {
        return None;
    }
    let mut value: u64 = 0;
    let mut i: usize = start;
    while i < n
        invariant
            cs@ == s@,
            n == s@.len(),
            start <= i <= n,
            d == s@.subrange(start as int, n as int),
            d == (if s@.len() > 0 && s@[0] == '+' {
                s@.drop_first()
            } else {
                s@
            }),
            all_digits(d.take(i - start)),
            value == decimal_value(d.take(i - start)),
        decreases n - i,
    {
        let c = cs[i];
        assert(c == d[i - start]);
        if !('0' <= c && c <= '9') {
            assert(!all_digits(d));
            return None;
        }
        let digit: u64 = (c as u64) - ('0' as u64);
        assert(d.take(i - start + 1).drop_last() =~= d.take(i - start));
        assert(all_digits(d.take(i - start + 1)));
        match value.checked_mul(10) {
            Some(m) => match m.checked_add(digit) {
                Some(v) => {
                    value = v;
                },
                None => {
                    proof {
                        if all_digits(d) {
                            assert(d.take(d.len() as int) =~= d);
                            lemma_decimal_grows(d, i - start + 1, d.len() as int);
                        }
                    }
                    return None;
                },
            },
            None => {
                proof {
                    if all_digits(d) {
                        assert(d.take(d.len() as int) =~= d);
                        lemma_decimal_grows(d, i - start + 1, d.len() as int);
                    }
                }
                return None;
            },
        }
        i = i + 1;
    }
    assert(d.take(n - start) =~= d);
    Some(value)
}


/// A line that was ended by `\n`, without a `\r` that stood before the `\n`.
pub open spec fn without_cr(line: Seq<char>) -> Seq<char> {
    if line.len() > 0 && line.last() == '\r' {
        line.drop_last()
    } else {
        line
    }
}

/// The lines of `s` as `BufRead::lines` yields them: the text between `\n`s,
/// each without a `\r` that ends it before its `\n`, and no empty last line
/// after a final `\n`.
pub open spec fn lines_of(s: Seq<char>) -> Seq<Seq<char>> {
    let pieces = split_on(s, '\n');
    let ended = pieces.drop_last().map_values(|p: Seq<char>| without_cr(p));
    if pieces.last().len() == 0 {
        ended
    } else {
        ended.push(pieces.last())
    }
}

/// Cuts `s` into its lines.
pub fn split_lines(s: &str) -> (out: Vec<String>)
    ensures
        views(out@) == lines_of(s@),
{
    let pieces = split(s, '\n');
    let ghost p = split_on(s@, '\n');
    assert(views(pieces@).len() == pieces@.len());
    let k = pieces.len() - 1;
    let mut out: Vec<String> = Vec::new();
    let mut i: usize = 0;
    while i < k
        invariant
            views(pieces@) == p,
            p == split_on(s@, '\n'),
            k == pieces@.len() - 1,
            i <= k,
            views(out@) == p.take(i as int).map_values(|x: Seq<char>| without_cr(x)),
        decreases k - i,
    {
        let piece = pieces[i].as_str();
        let len = piece.unicode_len();
        assert(piece@ == p[i as int]);
        let line = if len > 0 && piece.get_char(len - 1) == '\r' {
            String::from_str(piece.substring_char(0, len - 1))
        } else {
            String::from_str(piece)
        };
        let ghost before = out@;
        out.push(line);
        proof {
            assert(views(out@) =~= views(before).push(line@));
            assert(line@ == without_cr(p[i as int])) by {
                if len > 0 && piece@[len - 1] == '\r' {
                    assert(piece@.subrange(0, len - 1) =~= piece@.drop_last());
                }
            }
            assert(p.take(i + 1) =~= p.take(i as int).push(p[i as int]));
        }
        i = i + 1;
        assert(views(out@) =~= p.take(i as int).map_values(|x: Seq<char>| without_cr(x)));
    }
    assert(p.take(k as int) =~= p.drop_last());
    let last = pieces[k].as_str();
    if last.unicode_len() > 0 {
        out.push(String::from_str(last));
        assert(views(out@) =~= lines_of(s@));
    }
    out
}


/// Whether two strings hold the same characters.
pub fn same(a: &str, b: &str) -> (r: bool)
    ensures
        r == (a@ == b@),
{
    let x = chars_of(a);
    let y = chars_of(b);
    if x.len() != y.len() {
        return false;
    }
    let mut i: usize = 0;
    while i < x.len()
        invariant
            x@ == a@,
            y@ == b@,
            x@.len() == y@.len(),
            i <= x@.len(),
            forall|k: int| 0 <= k < i ==> x@[k] == y@[k],
        decreases x@.len() - i,
    {
        if x[i] != y[i] {
            return false;
        }
        i = i + 1;
    }
    assert(x@ =~= y@);
    true
}


/// `s` holds no `sep`.
pub open spec fn free_of(s: Seq<char>, sep: char) -> bool {
    forall|i: int| 0 <= i < s.len() ==> s[i] != sep
}

proof fn lemma_cut_free_tail(p: Seq<char>, b: Seq<char>, sep: char)
    requires
        free_of(b, sep),
    ensures
        cut(p + b, sep) == (cut(p, sep).0, cut(p, sep).1 + b),
    decreases b.len(),
{
    if b.len() == 0 {
        assert(p + b =~= p);
        assert(cut(p, sep).1 + b =~= cut(p, sep).1);
    } else {
        let b1 = b.drop_last();
        assert((p + b).drop_last() =~= p + b1);
        assert((p + b).last() == b.last());
        lemma_cut_free_tail(p, b1, sep);
        assert(cut(p, sep).1 + b1 + seq![b.last()] =~= cut(p, sep).1 + b);
        assert((cut(p, sep).1 + b1).push(b.last()) =~= cut(p, sep).1 + b);
    }
}

/// Joining two pieces free of `sep` with one `sep` and splitting the result
/// at `sep` gives the two pieces back.
pub proof fn split_joined(a: Seq<char>, b: Seq<char>, sep: char)
    requires
        free_of(a, sep),
        free_of(b, sep),
    ensures
        split_on(a + seq![sep] + b, sep) == seq![a, b],
{
    let e = Seq::<char>::empty();
    lemma_cut_free_tail(e, a, sep);
    assert(e + a =~= a);
    assert(cut(e, sep) == (Seq::<Seq<char>>::empty(), e));
    assert(e + a == a);
    let asep = a + seq![sep];
    assert(asep.drop_last() =~= a);
    assert(cut(asep, sep) == (seq![a], e));
    lemma_cut_free_tail(asep, b, sep);
    assert(e + b =~= b);
    assert(split_on(a + seq![sep] + b, sep) =~= seq![a, b]);
}


/// The decimal digits of `n`, most significant first, without leading zeros.
pub open spec fn decimal_text(n: nat) -> Seq<char>
    decreases n,
{
    if n < 10 {
        seq![digit_char(n)]
    } else {
        decimal_text(n / 10) + seq![digit_char(n % 10)]
    }
}

/// The character of a decimal digit.
pub open spec fn digit_char(d: nat) -> char {
    "0123456789"@[d as int]
}

/// Writes `n` in decimal, as `Display` does for a `u64`.
pub fn decimal(n: u64) -> (r: String)
    ensures
        r@ == decimal_text(n as nat),
    decreases n,
{
    let digits = "0123456789";
    proof {
        reveal_strlit("0123456789");
    }
    if n < 10 {
        String::from_str(digits.substring_char(n as usize, n as usize + 1))
    } else {
        let mut s = decimal(n / 10);
        let d = (n % 10) as usize;
        s.append(digits.substring_char(d, d + 1));
        assert(digits@.subrange(d as int, d + 1) =~= seq![digit_char((n % 10) as nat)]);
        s
    }
}

} // verus!
