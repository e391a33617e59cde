use vstd::prelude::*;

verus! {

/// The Unicode `White_Space` property: the characters that `str::trim` removes.
pub open spec fn is_white_space(c: char) -> bool {
    ||| '\u{9}' <= c <= '\u{d}'
    ||| c == ' '
    ||| c == '\u{85}'
    ||| c == '\u{a0}'
    ||| c == '\u{1680}'
    ||| '\u{2000}' <= c <= '\u{200a}'
    ||| c == '\u{2028}'
    ||| c == '\u{2029}'
    ||| c == '\u{202f}'
    ||| c == '\u{205f}'
    ||| c == '\u{3000}'
}

/// Whether `c` has the Unicode `White_Space` property.
pub fn is_whitespace(c: char) -> (r: bool)
    ensures
        r == is_white_space(c),
{
    (c >= '\u{9}' && c <= '\u{d}') || c == ' ' || c == '\u{85}' || c == '\u{a0}' || c == '\u{1680}'
        || (c >= '\u{2000}' && c <= '\u{200a}') || c == '\u{2028}' || c == '\u{2029}'
        || c == '\u{202f}' || c == '\u{205f}' || c == '\u{3000}'
}

/// Which characters a strip removes: white space, or one given character.
pub enum Strip {
    WhiteSpace,
    Char(char),
}

pub open spec fn strips(m: Strip, c: char) -> bool {
    match m {
        Strip::WhiteSpace => is_white_space(c),
        Strip::Char(x) => c == x,
    }
}

fn strips_exec(m: &Strip, c: char) -> (r: bool)
    ensures
        r == strips(*m, c),
{
    match m {
        Strip::WhiteSpace => is_whitespace(c),
        Strip::Char(x) => c == *x,
    }
}

/// `s` without its longest prefix of characters that `m` strips.
pub open spec fn strip_leading(s: Seq<char>, m: Strip) -> Seq<char>
    decreases s.len(),
{
    if s.len() > 0 && strips(m, s[0]) {
        strip_leading(s.drop_first(), m)
    } else {
        s
    }
}

/// `s` without its longest suffix of characters that `m` strips.
pub open spec fn strip_trailing(s: Seq<char>, m: Strip) -> Seq<char>
    decreases s.len(),
{
    if s.len() > 0 && strips(m, s.last()) {
        strip_trailing(s.drop_last(), m)
    } else {
        s
    }
}

/// Stripping the front of `s` removes a prefix made only of characters that
/// `m` strips, and stops at the first one it does not strip: the result is a
/// suffix `s.skip(k)` of `s`.
pub proof fn law_strip_leading_is_suffix(s: Seq<char>, m: Strip) -> (k: int)
    ensures
        0 <= k <= s.len(),
        strip_leading(s, m) == s.skip(k),
        forall|i: int| 0 <= i < k ==> strips(m, #[trigger] s[i]),
        k < s.len() ==> !strips(m, s[k]),
    decreases s.len(),
{
    if s.len() > 0 && strips(m, s[0]) {
        let j = law_strip_leading_is_suffix(s.drop_first(), m);
        assert(s.drop_first().skip(j) =~= s.skip(j + 1));
        assert forall|i: int| 0 <= i < j + 1 implies strips(m, #[trigger] s[i]) by {
            if i > 0 {
                assert(s[i] == s.drop_first()[i - 1]);
            }
        }
        j + 1
    } else {
        assert(s.skip(0) =~= s);
        0
    }
}

/// Stripping the end of `s` removes a suffix made only of characters that
/// `m` strips, and stops at the last one it does not strip: the result is a
/// prefix `s.take(k)` of `s`.
pub proof fn law_strip_trailing_is_prefix(s: Seq<char>, m: Strip) -> (k: int)
    ensures
        0 <= k <= s.len(),
        strip_trailing(s, m) == s.take(k),
        forall|i: int| k <= i < s.len() ==> strips(m, #[trigger] s[i]),
        k > 0 ==> !strips(m, s[k - 1]),
    decreases s.len(),
{
    if s.len() > 0 && strips(m, s.last()) {
        let j = law_strip_trailing_is_prefix(s.drop_last(), m);
        assert(s.drop_last().take(j) =~= s.take(j));
        assert forall|i: int| j <= i < s.len() implies strips(m, #[trigger] s[i]) by {
            if i < s.len() - 1 {
                assert(s[i] == s.drop_last()[i]);
            }
        }
        j
    } else {
        assert(s.take(s.len() as int) =~= s);
        s.len() as int
    }
}

/// Trimming keeps a contiguous part of `s` that neither begins nor ends with
/// white space, and removes only white space around it.
pub proof fn law_trim_removes_only_white_space(s: Seq<char>) -> (bounds: (int, int))
    ensures
        0 <= bounds.0 <= bounds.1 <= s.len(),
        spec_trim(s) == s.subrange(bounds.0, bounds.1),
        forall|i: int| 0 <= i < bounds.0 ==> is_white_space(#[trigger] s[i]),
        forall|i: int| bounds.1 <= i < s.len() ==> is_white_space(#[trigger] s[i]),
        spec_trim(s).len() > 0 ==> !is_white_space(spec_trim(s)[0]) && !is_white_space(
            spec_trim(s).last(),
        ),
{
    let a = law_strip_leading_is_suffix(s, Strip::WhiteSpace);
    let rest = s.skip(a);
    let b = law_strip_trailing_is_prefix(rest, Strip::WhiteSpace);
    assert(rest.take(b) =~= s.subrange(a, a + b));
    assert forall|i: int| a + b <= i < s.len() implies is_white_space(#[trigger] s[i]) by {
        assert(s[i] == rest[i - a]);
        assert(strips(Strip::WhiteSpace, rest[i - a]));
    }
    assert forall|i: int| 0 <= i < a implies is_white_space(#[trigger] s[i]) by {
        assert(strips(Strip::WhiteSpace, s[i]));
    }
    if b > 0 {
        assert(spec_trim(s)[0] == rest[0]);
        assert(spec_trim(s).last() == rest[b - 1]);
    }
    (a, a + b)
}

/// What `str::trim` gives back: `s` without leading and trailing white space.
pub open spec fn spec_trim(s: Seq<char>) -> Seq<char> {
    strip_trailing(strip_leading(s, Strip::WhiteSpace), Strip::WhiteSpace)
}

/// Index of the first character of `s` that `m` does not strip (`n` if none).
fn leading_end(s: &str, n: usize, m: &Strip) -> (i: usize)
    requires
        n == s@.len(),
    ensures
        i <= n,
        strip_leading(s@, *m) == s@.subrange(i as int, n as int),
{
    let mut i: usize = 0;
    assert(s@.subrange(0, n as int) =~= s@);
    while i < n
        invariant
            i <= n,
            n == s@.len(),
            strip_leading(s@, *m) == strip_leading(s@.subrange(i as int, n as int), *m),
        decreases n - i,
    {
        let c = s.get_char(i);
        if !strips_exec(m, c) {
            return i;
        }
        assert(s@.subrange(i as int, n as int).drop_first() =~= s@.subrange(i + 1, n as int));
        i = i + 1;
    }
    i
}

/// Index just past the last character of `s[from..n]` that `m` does not strip.
fn trailing_start(s: &str, from: usize, n: usize, m: &Strip) -> (j: usize)
    requires
        n == s@.len(),
        from <= n,
    ensures
        from <= j <= n,
        strip_trailing(s@.subrange(from as int, n as int), *m) == s@.subrange(
            from as int,
            j as int,
        ),
{
    let mut j: usize = n;
    while j > from
        invariant
            from <= j <= n,
            n == s@.len(),
            strip_trailing(s@.subrange(from as int, n as int), *m) == strip_trailing(
                s@.subrange(from as int, j as int),
                *m,
            ),
        decreases j,
    {
        let c = s.get_char(j - 1);
        if !strips_exec(m, c) {
            return j;
        }
        assert(s@.subrange(from as int, j as int).drop_last() =~= s@.subrange(
            from as int,
            j - 1,
        ));
        j = j - 1;
    }
    j
}

/// `str::trim`: `s` without leading and trailing white space.
pub fn trim<'a>(s: &'a str) -> (r: &'a str)
    ensures
        r@ == spec_trim(s@),
{
    let n = s.unicode_len();
    let m = Strip::WhiteSpace;
    let i = leading_end(s, n, &m);
    let j = trailing_start(s, i, n, &m);
    s.substring_char(i, j)
}

/// `str::trim_start_matches` with a single character: `s` without the
/// longest prefix made only of `c`.
pub fn trim_start_char<'a>(s: &'a str, c: char) -> (r: &'a str)
    ensures
        r@ == strip_leading(s@, Strip::Char(c)),
{
    let n = s.unicode_len();
    let m = Strip::Char(c);
    let i = leading_end(s, n, &m);
    s.substring_char(i, n)
}

/// `str::trim_end_matches` with a single character: `s` without the
/// longest suffix made only of `c`.
pub fn trim_end_char<'a>(s: &'a str, c: char) -> (r: &'a str)
    ensures
        r@ == strip_trailing(s@, Strip::Char(c)),
{
    let n = s.unicode_len();
    let m = Strip::Char(c);
    let j = trailing_start(s, 0, n, &m);
    assert(s@.subrange(0, n as int) =~= s@);
    s.substring_char(0, j)
}

/// Whether `s` begins with `prefix`.
pub fn starts_with(s: &str, prefix: &str) -> (r: bool)
    ensures
        r == (prefix@.len() <= s@.len() && s@.subrange(0, prefix@.len() as int) == prefix@),
{
    let n = s.unicode_len();
    let k = prefix.unicode_len();
    if k > n {
        return false;
    }
    let mut i: usize = 0;
    while i < k
        invariant
            i <= k <= n,
            n == s@.len(),
            k == prefix@.len(),
            forall|j: int| 0 <= j < i ==> s@[j] == prefix@[j],
        decreases k - i,
    {
        if s.get_char(i) != prefix.get_char(i) {
            assert(s@.subrange(0, k as int)[i as int] != prefix@[i as int]);
            return false;
        }
        i = i + 1;
    }
    assert(s@.subrange(0, k as int) =~= prefix@);
    true
}

/// Whether `a` and `b` hold the same characters.
pub fn same_text(a: &str, b: &str) -> (r: bool)
    ensures
        r == (a@ == b@),
{
    let n = a.unicode_len();
    if n != b.unicode_len() {
        return false;
    }
    let p = starts_with(a, b);
    assert(a@ =~= a@.subrange(0, n as int));
    p
}

/// The character of decimal digit `d`.
pub open spec fn digit_char(d: nat) -> char {
    if d == 0 {
        '0'
    } else if d == 1 {
        '1'
    } else if d == 2 {
        '2'
    } else if d == 3 {
        '3'
    } else if d == 4 {
        '4'
    } else if d == 5 {
        '5'
    } else if d == 6 {
        '6'
    } else if d == 7 {
        '7'
    } else if d == 8 {
        '8'
    } else {
        '9'
    }
}

/// The decimal notation of `n`, as `Display` writes an unsigned integer.
pub open spec fn decimal(n: nat) -> Seq<char>
    decreases n,
{
    if n < 10 {
        seq![digit_char(n)]
    } else {
        decimal(n / 10).push(digit_char(n % 10))
    }
}

/// The number that the decimal digits `s` write.
pub open spec fn digits_value(s: Seq<char>) -> int
    decreases s.len(),
{
    if s.len() == 0 {
        0
    } else {
        digits_value(s.drop_last()) * 10 + (s.last() as int - '0' as int)
    }
}

proof fn lemma_digit_value(d: nat)
    requires
        d < 10,
    ensures
        digit_char(d) as int - '0' as int == d,
        '0' <= digit_char(d) <= '9',
{
    assert('0' as int == 48 && '1' as int == 49 && '2' as int == 50 && '3' as int == 51 && '4' as int
        == 52 && '5' as int == 53 && '6' as int == 54 && '7' as int == 55 && '8' as int == 56
        && '9' as int == 57);
}

/// The decimal notation of `n` is made of the digits `0` to `9`, writes the
/// number `n`, and has no leading zero unless `n` is zero.
pub proof fn law_decimal_writes_n(n: nat)
    ensures
        forall|i: int| 0 <= i < decimal(n).len() ==> '0' <= #[trigger] decimal(n)[i] <= '9',
        digits_value(decimal(n)) == n,
        decimal(n).len() > 0,
        decimal(n)[0] == '0' ==> n == 0,
    decreases n,
{
    assert(digits_value(Seq::<char>::empty()) == 0);
    if n < 10 {
        lemma_digit_value(n);
        assert(decimal(n).drop_last() =~= Seq::<char>::empty());
    } else {
        lemma_digit_value(n % 10);
        law_decimal_writes_n(n / 10);
        let p = decimal(n / 10);
        assert(decimal(n).drop_last() =~= p);
        assert forall|i: int| 0 <= i < decimal(n).len() implies '0' <= #[trigger] decimal(n)[i] <= '9' by {
            if i < p.len() {
                assert(decimal(n)[i] == p[i]);
            }
        }
        assert(decimal(n)[0] == p[0]);
    }
}

fn digit_text(d: usize) -> (r: &'static str)
    requires
        d < 10,
    ensures
        r@ == seq![digit_char(d as nat)],
{
    let digits = "0123456789";
    proof {
        reveal_strlit("0123456789");
    }
    let r = digits.substring_char(d, d + 1);
    assert(r@ =~= seq![digits@[d as int]]);
    r
}

/// `n.to_string()`: the decimal notation of `n`.
pub fn decimal_string(n: u64) -> (r: String)
    ensures
        r@ == decimal(n as nat),
    decreases n,
{
    if n < 10 {
        String::from_str(digit_text(n as usize))
    } else {
        let mut s = decimal_string(n / 10);
        s.append(digit_text((n % 10) as usize));
        s
    }
}

/// The views of a sequence of strings.
pub open spec fn texts(v: Seq<String>) -> Seq<Seq<char>> {
    v.map_values(|s: String| s@)
}

/// `items` joined with `sep` between consecutive items.
pub open spec fn join(items: Seq<Seq<char>>, sep: Seq<char>) -> Seq<char>
    decreases items.len(),
{
    if items.len() == 0 {
        seq![]
    } else if items.len() == 1 {
        items[0]
    } else {
        join(items.drop_last(), sep) + sep + items.last()
    }
}

/// A JSON array whose elements are the JSON texts `items`, written compactly.
pub open spec fn json_array_text(items: Seq<Seq<char>>) -> Seq<char> {
    seq!['['] + join(items, seq![',']) + seq![']']
}

/// The compact JSON array of the JSON texts `items[lo..hi]`.
pub fn frame_json_array(items: &Vec<String>, lo: usize, hi: usize) -> (r: String)
    requires
        lo <= hi <= items@.len(),
    ensures
        r@ == json_array_text(texts(items@).subrange(lo as int, hi as int)),
{
    let ghost all = texts(items@);
    let mut r = String::from_str("[");
    proof {
        reveal_strlit("[");
        reveal_strlit("]");
    }
    let mut i = lo;
    assert(all.subrange(lo as int, lo as int) =~= Seq::<Seq<char>>::empty());
    while i < hi
        invariant
            lo <= i <= hi <= items@.len(),
            all == texts(items@),
            r@ == seq!['['] + join(all.subrange(lo as int, i as int), seq![',']),
        decreases hi - i,
    {
        let ghost before = r@;
        let ghost t = all.subrange(lo as int, i + 1);
        assert(t.drop_last() =~= all.subrange(lo as int, i as int));
        assert(t.last() == items@[i as int]@);
        if i > lo {
            proof {
                reveal_strlit(",");
            }
            r.append(",");
            assert(r@ =~= before + seq![',']);
        }
        let ghost mid = r@;
        r.append(items[i].as_str());
        assert(r@ =~= mid + t.last());
        proof {
            if i > lo {
                assert(join(t, seq![',']) == join(t.drop_last(), seq![',']) + seq![','] + t.last());
                assert(r@ =~= seq!['['] + join(t, seq![',']));
            } else {
                assert(join(t, seq![',']) == t[0]);
                assert(r@ =~= seq!['['] + join(t, seq![',']));
            }
        }
        i = i + 1;
    }
    r.append("]");
    r
}

} // verus!
