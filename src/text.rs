//! Text as sequences of characters: trimming, splitting, joining, replacing,
//! searching and decimal numbers, each stated over `Seq<char>`.
use vstd::prelude::*;

verus! {

/// Relies on `str::chars` collected into a `Vec`: the characters of `s`, in order.
#[verifier::external_body]
pub(crate) fn chars_of(s: &str) -> (r: Vec<char>)
    ensures
        r@ == s@,
{
    s.chars().collect()
}

/// Relies on `String: FromIterator<char>`: the string made of `cs`, in order.
#[verifier::external_body]
pub(crate) fn string_of(cs: &Vec<char>) -> (r: String)
    ensures
        r@ == cs@,
{
    cs.iter().collect()
}

/// The character sequences of a list of strings.
pub open spec fn string_views(v: Seq<String>) -> Seq<Seq<char>> {
    v.map_values(|s: String| s@)
}

/// The characters with the Unicode `White_Space` property (what `char::is_whitespace` accepts).
pub open spec fn is_ws(c: char) -> bool {
    ('\u{9}' <= c && c <= '\u{d}') || c == ' ' || c == '\u{85}' || c == '\u{a0}' || c == '\u{1680}'
        || ('\u{2000}' <= c && c <= '\u{200a}') || c == '\u{2028}' || c == '\u{2029}' || c
        == '\u{202f}' || c == '\u{205f}' || c == '\u{3000}'
}

pub fn is_whitespace(c: char) -> (r: bool)
    ensures
        r == is_ws(c),
{
    ('\u{9}' <= c && c <= '\u{d}') || c == ' ' || c == '\u{85}' || c == '\u{a0}' || c == '\u{1680}'
        || ('\u{2000}' <= c && c <= '\u{200a}') || c == '\u{2028}' || c == '\u{2029}' || c
        == '\u{202f}' || c == '\u{205f}' || c == '\u{3000}'
}

pub open spec fn trim_start_spec(s: Seq<char>) -> Seq<char>
    decreases s.len(),
{
    if s.len() > 0 && is_ws(s[0]) {
        trim_start_spec(s.drop_first())
    } else {
        s
    }
}

pub open spec fn trim_end_spec(s: Seq<char>) -> Seq<char>
    decreases s.len(),
{
    if s.len() > 0 && is_ws(s.last()) {
        trim_end_spec(s.drop_last())
    } else {
        s
    }
}

/// `s` without leading and trailing whitespace.
pub open spec fn trim_spec(s: Seq<char>) -> Seq<char> {
    trim_end_spec(trim_start_spec(s))
}

/// The characters `s[from..to]` as a new vector.
pub fn slice_chars(s: &Vec<char>, from: usize, to: usize) -> (r: Vec<char>)
    requires
        from <= to <= s@.len(),
    ensures
        r@ == s@.subrange(from as int, to as int),
{
    let mut r: Vec<char> = Vec::new();
    let mut i: usize = from;
    while i < to
        invariant
            from <= i <= to <= s@.len(),
            r@ == s@.subrange(from as int, i as int),
        decreases to - i,
    {
        r.push(s[i]);
        i = i + 1;
        assert(r@ =~= s@.subrange(from as int, i as int));
    }
    r
}

/// `s` without leading and trailing whitespace.
pub fn trim(s: &Vec<char>) -> (r: Vec<char>)
    ensures
        r@ == trim_spec(s@),
{
    let mut i: usize = 0;
    assert(s@.subrange(0, s@.len() as int) =~= s@);
    while i < s.len() && is_whitespace(s[i])
        invariant
            i <= s@.len(),
            trim_start_spec(s@) == trim_start_spec(s@.subrange(i as int, s@.len() as int)),
        decreases s@.len() - i,
    {
        assert(s@.subrange(i as int, s@.len() as int).drop_first() =~= s@.subrange(
            i + 1,
            s@.len() as int,
        ));
        i = i + 1;
    }
    let ghost start = s@.subrange(i as int, s@.len() as int);
    assert(trim_start_spec(start) == start);
    let mut j: usize = s.len();
    while j > i && is_whitespace(s[j - 1])
        invariant
            i <= j <= s@.len(),
            start == s@.subrange(i as int, s@.len() as int),
            trim_end_spec(start) == trim_end_spec(s@.subrange(i as int, j as int)),
        decreases j,
    {
        assert(s@.subrange(i as int, j as int).drop_last() =~= s@.subrange(i as int, j - 1));
        j = j - 1;
    }
    slice_chars(s, i, j)
}

/// `s` without trailing whitespace.
pub fn trim_end(s: &Vec<char>) -> (r: Vec<char>)
    ensures
        r@ == trim_end_spec(s@),
{
    let mut j: usize = s.len();
    assert(s@.subrange(0, s@.len() as int) =~= s@);
    while j > 0 && is_whitespace(s[j - 1])
        invariant
            j <= s@.len(),
            trim_end_spec(s@) == trim_end_spec(s@.subrange(0, j as int)),
        decreases j,
    {
        assert(s@.subrange(0, j as int).drop_last() =~= s@.subrange(0, j - 1));
        j = j - 1;
    }
    slice_chars(s, 0, j)
}

/// The pieces of `s` between occurrences of `sep`, as `str::split` with a `char` gives them.
pub open spec fn split_spec(s: Seq<char>, sep: char) -> Seq<Seq<char>>
    decreases s.len(),
{
    if s.len() == 0 {
        seq![Seq::<char>::empty()]
    } else {
        let rest = split_spec(s.drop_last(), sep);
        if s.last() == sep {
            rest.push(Seq::<char>::empty())
        } else {
            rest.update(rest.len() - 1, rest.last().push(s.last()))
        }
    }
}

pub proof fn lemma_split_nonempty(s: Seq<char>, sep: char)
    ensures
        split_spec(s, sep).len() >= 1,
    decreases s.len(),
{
    if s.len() > 0 {
        lemma_split_nonempty(s.drop_last(), sep);
    }
}

/// The pieces of `s` between occurrences of `sep`.
pub fn split(s: &Vec<char>, sep: char) -> (r: Vec<Vec<char>>)
    ensures
        r@.len() == split_spec(s@, sep).len(),
        forall|k: int| 0 <= k < r@.len() ==> #[trigger] r@[k]@ == split_spec(s@, sep)[k],
{
    let mut done: Vec<Vec<char>> = Vec::new();
    let mut cur: Vec<char> = Vec::new();
    let mut i: usize = 0;
    while i < s.len()
        invariant
            i <= s@.len(),
            done@.len() + 1 == split_spec(s@.subrange(0, i as int), sep).len(),
            forall|k: int|
                0 <= k < done@.len() ==> #[trigger] done@[k]@ == split_spec(
                    s@.subrange(0, i as int),
                    sep,
                )[k],
            cur@ == split_spec(s@.subrange(0, i as int), sep).last(),
        decreases s@.len() - i,
    {
        let ghost prev = s@.subrange(0, i as int);
        assert(s@.subrange(0, i + 1).drop_last() =~= prev);
        proof {
            lemma_split_nonempty(prev, sep);
        }
        let c = s[i];
        if c == sep {
            done.push(cur);
            cur = Vec::new();
        } else {
            cur.push(c);
        }
        i = i + 1;
    }
    assert(s@.subrange(0, s@.len() as int) =~= s@);
    done.push(cur);
    done
}

/// The pieces joined with `sep` between each two of them, as `join` on a slice gives them.
pub open spec fn join_spec(parts: Seq<Seq<char>>, sep: char) -> Seq<char>
    decreases parts.len(),
{
    if parts.len() == 0 {
        Seq::<char>::empty()
    } else if parts.len() == 1 {
        parts[0]
    } else {
        join_spec(parts.drop_last(), sep).push(sep) + parts.last()
    }
}

/// `parts[from..to]` joined with `sep`.
pub fn join_range(parts: &Vec<Vec<char>>, from: usize, to: usize, sep: char) -> (r: Vec<char>)
    requires
        from <= to <= parts@.len(),
    ensures
        r@ == join_spec(parts@.subrange(from as int, to as int).map_values(|p: Vec<char>| p@), sep),
{
    let ghost views = parts@.map_values(|p: Vec<char>| p@);
    let mut r: Vec<char> = Vec::new();
    let mut i: usize = from;
    while i < to
        invariant
            from <= i <= to <= parts@.len(),
            views == parts@.map_values(|p: Vec<char>| p@),
            r@ == join_spec(views.subrange(from as int, i as int), sep),
        decreases to - i,
    {
        let ghost before = views.subrange(from as int, i as int);
        let ghost after = views.subrange(from as int, i + 1);
        assert(after.drop_last() =~= before);
        if i > from {
            r.push(sep);
        }
        let piece = &parts[i];
        let mut k: usize = 0;
        let ghost base = r@;
        while k < piece.len()
            invariant
                k <= piece@.len(),
                r@ == base + piece@.subrange(0, k as int),
            decreases piece@.len() - k,
        {
            r.push(piece[k]);
            k = k + 1;
            assert(r@ =~= base + piece@.subrange(0, k as int));
        }
        assert(piece@.subrange(0, piece@.len() as int) =~= piece@);
        i = i + 1;
        if i - 1 == from {
            assert(r@ =~= join_spec(after, sep));
        }
    }
    assert(parts@.subrange(from as int, to as int).map_values(|p: Vec<char>| p@) =~= views.subrange(
        from as int,
        to as int,
    ));
    r
}

/// `needle` stands in `hay` at position `i`.
pub open spec fn occurs_at(hay: Seq<char>, needle: Seq<char>, i: int) -> bool {
    0 <= i && i + needle.len() <= hay.len() && hay.subrange(i, i + needle.len()) == needle
}

/// `needle` stands somewhere in `hay`, as `str::contains` tells.
pub open spec fn contains_spec(hay: Seq<char>, needle: Seq<char>) -> bool {
    exists|i: int| occurs_at(hay, needle, i)
}

/// Whether `needle` stands at position `i` of `hay`.
pub fn matches_at(hay: &Vec<char>, needle: &Vec<char>, i: usize) -> (r: bool)
    ensures
        r == occurs_at(hay@, needle@, i as int),
{
    if i > hay.len() || needle.len() > hay.len() - i {
        return false;
    }
    let n = hay.len();
    let mut k: usize = 0;
    while k < needle.len()
        invariant
            n == hay@.len(),
            i + needle@.len() <= hay@.len(),
            k <= needle@.len(),
            forall|m: int| 0 <= m < k ==> hay@[i + m] == needle@[m],
        decreases needle@.len() - k,
    {
        if hay[i + k] != needle[k] {
            assert(hay@.subrange(i as int, i + needle@.len())[k as int] != needle@[k as int]);
            return false;
        }
        k = k + 1;
    }
    assert(hay@.subrange(i as int, i + needle@.len()) =~= needle@);
    true
}

/// Whether `needle` stands somewhere in `hay`.
pub fn contains(hay: &Vec<char>, needle: &Vec<char>) -> (r: bool)
    ensures
        r == contains_spec(hay@, needle@),
{
    if needle.len() > hay.len() {
        return false;
    }
    let limit = hay.len() - needle.len();
    let mut i: usize = 0;
    loop
        invariant
            limit == hay@.len() - needle@.len(),
            i <= limit,
            forall|m: int| 0 <= m < i ==> !occurs_at(hay@, needle@, m),
        decreases limit - i,
    {
        if matches_at(hay, needle, i) {
            return true;
        }
        if i == limit {
            return false;
        }
        i = i + 1;
    }
}

/// `s` with each occurrence of `pat`, taken from the left without overlap, replaced by `rep`,
/// as `str::replace` does it.
pub open spec fn replace_spec(s: Seq<char>, pat: Seq<char>, rep: Seq<char>) -> Seq<char>
    decreases s.len(),
{
    if s.len() == 0 {
        Seq::<char>::empty()
    } else if pat.len() > 0 && pat.len() <= s.len() && s.subrange(0, pat.len() as int) == pat {
        rep + replace_spec(s.subrange(pat.len() as int, s.len() as int), pat, rep)
    } else {
        seq![s[0]] + replace_spec(s.drop_first(), pat, rep)
    }
}

/// `s` with each occurrence of `pat` replaced by `rep`.
pub fn replace(s: &Vec<char>, pat: &Vec<char>, rep: &Vec<char>) -> (r: Vec<char>)
    ensures
        r@ == replace_spec(s@, pat@, rep@),
{
    let mut r: Vec<char> = Vec::new();
    let mut i: usize = 0;
    assert(s@.subrange(0, s@.len() as int) =~= s@);
    assert(Seq::<char>::empty() + replace_spec(s@, pat@, rep@) =~= replace_spec(s@, pat@, rep@));
    while i < s.len()
        invariant
            i <= s@.len(),
            r@ + replace_spec(s@.subrange(i as int, s@.len() as int), pat@, rep@) == replace_spec(
                s@,
                pat@,
                rep@,
            ),
        decreases s@.len() - i,
    {
        let ghost rest = s@.subrange(i as int, s@.len() as int);
        if pat.len() > 0 && matches_at(s, pat, i) {
            assert(rest.subrange(0, pat@.len() as int) =~= s@.subrange(i as int, i + pat@.len()));
            assert(rest.subrange(pat@.len() as int, rest.len() as int) =~= s@.subrange(
                i + pat@.len(),
                s@.len() as int,
            ));
            let mut k: usize = 0;
            let ghost base = r@;
            while k < rep.len()
                invariant
                    k <= rep@.len(),
                    r@ == base + rep@.subrange(0, k as int),
                decreases rep@.len() - k,
            {
                r.push(rep[k]);
                k = k + 1;
                assert(r@ =~= base + rep@.subrange(0, k as int));
            }
            assert(rep@.subrange(0, rep@.len() as int) =~= rep@);
            assert(base + (rep@ + replace_spec(
                s@.subrange(i + pat@.len(), s@.len() as int),
                pat@,
                rep@,
            )) =~= r@ + replace_spec(s@.subrange(i + pat@.len(), s@.len() as int), pat@, rep@));
            i = i + pat.len();
        } else {
            proof {
                if pat@.len() > 0 && pat@.len() <= rest.len() {
                    assert(rest.subrange(0, pat@.len() as int) =~= s@.subrange(
                        i as int,
                        i + pat@.len(),
                    ));
                }
            }
            assert(rest.drop_first() =~= s@.subrange(i + 1, s@.len() as int));
            let ghost base = r@;
            r.push(s[i]);
            assert(base + (seq![s@[i as int]] + replace_spec(
                s@.subrange(i + 1, s@.len() as int),
                pat@,
                rep@,
            )) =~= r@ + replace_spec(s@.subrange(i + 1, s@.len() as int), pat@, rep@));
            i = i + 1;
        }
    }
    assert(s@.subrange(s@.len() as int, s@.len() as int) =~= Seq::<char>::empty());
    assert(r@ + Seq::<char>::empty() =~= r@);
    r
}

/// The first index at or after `i` whose character is `a` or `b`, or the length of `s`.
pub open spec fn stop_at(s: Seq<char>, i: int, a: char, b: char) -> int
    decreases s.len() - i,
{
    if i < 0 || i >= s.len() {
        if i < 0 {
            0
        } else {
            s.len() as int
        }
    } else if s[i] == a || s[i] == b {
        i
    } else {
        stop_at(s, i + 1, a, b)
    }
}

pub proof fn lemma_stop_at(s: Seq<char>, i: int, a: char, b: char)
    requires
        0 <= i <= s.len(),
    ensures
        i <= stop_at(s, i, a, b) <= s.len(),
        forall|k: int| i <= k < stop_at(s, i, a, b) ==> s[k] != a && s[k] != b,
        stop_at(s, i, a, b) < s.len() ==> (s[stop_at(s, i, a, b)] == a || s[stop_at(s, i, a, b)]
            == b),
    decreases s.len() - i,
{
    if i < s.len() && s[i] != a && s[i] != b {
        lemma_stop_at(s, i + 1, a, b);
    }
}

/// The first index at or after `start` whose character is `a` or `b`, or the length.
pub fn scan_until(s: &Vec<char>, start: usize, a: char, b: char) -> (r: usize)
    requires
        start <= s@.len(),
    ensures
        r == stop_at(s@, start as int, a, b),
        start <= r <= s@.len(),
{
    proof {
        lemma_stop_at(s@, start as int, a, b);
    }
    let mut i: usize = start;
    while i < s.len() && s[i] != a && s[i] != b
        invariant
            start <= i <= s@.len(),
            stop_at(s@, i as int, a, b) == stop_at(s@, start as int, a, b),
        decreases s@.len() - i,
    {
        i = i + 1;
    }
    i
}

pub open spec fn is_digit(c: char) -> bool {
    '0' <= c && c <= '9'
}

pub open spec fn digit_value(c: char) -> int {
    (c as u32) as int - ('0' as u32) as int
}

/// The number that the decimal digits `s` write.
pub open spec fn digits_value(s: Seq<char>) -> int
    decreases s.len(),
{
    if s.len() == 0 {
        0
    } else {
        digits_value(s.drop_last()) * 10 + digit_value(s.last())
    }
}

pub open spec fn all_digits(s: Seq<char>) -> bool {
    forall|k: int| 0 <= k < s.len() ==> is_digit(#[trigger] s[k])
}

/// The digits of a decimal numeral: all of `s`, or all after a leading `+`.
pub open spec fn numeral_digits(s: Seq<char>) -> Seq<char> {
    if s.len() > 0 && s[0] == '+' {
        s.drop_first()
    } else {
        s
    }
}

/// What `usize::from_str` returns on `s`: the value of a non-empty run of digits, with an
/// optional leading `+`, when it fits.
pub open spec fn parse_usize_spec(s: Seq<char>) -> Option<usize> {
    let d = numeral_digits(s);
    if d.len() > 0 && all_digits(d) && digits_value(d) <= usize::MAX {
        Some(digits_value(d) as usize)
    } else {
        None
    }
}

proof fn lemma_digits_value_grows(s: Seq<char>, i: int)
    requires
        0 <= i <= s.len(),
        all_digits(s),
    ensures
        digits_value(s.subrange(0, i)) <= digits_value(s),
        0 <= digits_value(s.subrange(0, i)),
    decreases s.len() - i,
{
    if i < s.len() {
        lemma_digits_value_grows(s, i + 1);
        assert(s.subrange(0, i + 1).drop_last() =~= s.subrange(0, i));
        assert(is_digit(s[i]));
    } else {
        assert(s.subrange(0, i) =~= s);
        lemma_digits_nonneg(s);
    }
}

proof fn lemma_digits_nonneg(s: Seq<char>)
    requires
        all_digits(s),
    ensures
        0 <= digits_value(s),
    decreases s.len(),
{
    if s.len() > 0 {
        assert(is_digit(s.last()));
        lemma_digits_nonneg(s.drop_last());
    }
}

/// Reads `s` as a decimal `usize`, as `usize::from_str` does.
pub fn parse_usize(s: &Vec<char>) -> (r: Option<usize>)
    ensures
        r == parse_usize_spec(s@),
{
    let start: usize = if s.len() > 0 && s[0] == '+' {
        1
    } else {
        0
    };
    let ghost d = numeral_digits(s@);
    assert(d =~= s@.subrange(start as int, s@.len() as int));
    if start == s.len() {
        return None;
    }
    let mut value: usize = 0;
    let mut i: usize = start;
    while i < s.len()
        invariant
            start <= i <= s@.len(),
            d == numeral_digits(s@),
            d =~= s@.subrange(start as int, s@.len() as int),
            all_digits(d.subrange(0, i - start)),
            value as int == digits_value(d.subrange(0, i - start)),
        decreases s@.len() - i,
    {
        let c = s[i];
        if !('0' <= c && c <= '9') {
            assert(d[i - start] == c);
            assert(!is_digit(d[i - start]));
            return None;
        }
        let ghost prefix = d.subrange(0, i + 1 - start);
        assert(prefix.drop_last() =~= d.subrange(0, i - start));
        let digit = (c as u32 - '0' as u32) as usize;
        if value > (usize::MAX - digit) / 10 {
            proof {
                if all_digits(d) {
                    lemma_digits_value_grows(d, i + 1 - start);
                    assert(digit_value(c) == digit as int);
                    assert(value * 10 + digit > usize::MAX) by (nonlinear_arith)
                        requires
                            value > (usize::MAX - digit) / 10,
                            digit <= 9,
                    ;
                }
            }
            return None;
        }
        value = value * 10 + digit;
        i = i + 1;
        assert(all_digits(prefix));
    }
    assert(d.subrange(0, d.len() as int) =~= d);
    Some(value)
}

} // verus!

verus! {

/// The pieces of `s` between occurrences of `pat`, taken from the left without overlap, as
/// `str::split` with a string gives them.
pub open spec fn split_str_spec(s: Seq<char>, pat: Seq<char>) -> Seq<Seq<char>>
    decreases s.len(),
{
    if s.len() == 0 {
        seq![Seq::<char>::empty()]
    } else if pat.len() > 0 && pat.len() <= s.len() && s.subrange(0, pat.len() as int) == pat {
        seq![Seq::<char>::empty()] + split_str_spec(s.subrange(pat.len() as int, s.len() as int), pat)
    } else {
        let rest = split_str_spec(s.drop_first(), pat);
        rest.update(0, seq![s[0]] + rest[0])
    }
}

pub proof fn lemma_split_str_nonempty(s: Seq<char>, pat: Seq<char>)
    ensures
        split_str_spec(s, pat).len() >= 1,
    decreases s.len(),
{
    if s.len() > 0 {
        if pat.len() > 0 && pat.len() <= s.len() && s.subrange(0, pat.len() as int) == pat {
            lemma_split_str_nonempty(s.subrange(pat.len() as int, s.len() as int), pat);
        } else {
            lemma_split_str_nonempty(s.drop_first(), pat);
        }
    }
}

/// The pieces of `s` between occurrences of `pat`.
pub fn split_str(s: &Vec<char>, pat: &Vec<char>) -> (r: Vec<Vec<char>>)
    ensures
        r@.len() == split_str_spec(s@, pat@).len(),
        forall|k: int| 0 <= k < r@.len() ==> #[trigger] r@[k]@ == split_str_spec(s@, pat@)[k],
{
    let mut done: Vec<Vec<char>> = Vec::new();
    let mut cur: Vec<char> = Vec::new();
    let mut i: usize = 0;
    let ghost all = split_str_spec(s@, pat@);
    proof {
        lemma_split_str_nonempty(s@, pat@);
        assert(s@.subrange(0, s@.len() as int) =~= s@);
    }
    while i < s.len()
        invariant
            i <= s@.len(),
            all == split_str_spec(s@, pat@),
            split_str_spec(s@.subrange(i as int, s@.len() as int), pat@).len() >= 1,
            all.len() == done@.len() + split_str_spec(s@.subrange(i as int, s@.len() as int), pat@).len(),
            forall|k: int| 0 <= k < done@.len() ==> #[trigger] done@[k]@ == all[k],
            all[done@.len() as int] == cur@ + split_str_spec(s@.subrange(i as int, s@.len() as int), pat@)[0],
            forall|k: int|
                1 <= k < split_str_spec(s@.subrange(i as int, s@.len() as int), pat@).len() ==> all[done@.len() + k]
                    == #[trigger] split_str_spec(s@.subrange(i as int, s@.len() as int), pat@)[k],
        decreases s@.len() - i,
    {
        let ghost suffix = s@.subrange(i as int, s@.len() as int);
        let ghost d0 = done@.len() as int;
        let ghost rest_old = split_str_spec(suffix, pat@);
        if pat.len() > 0 && matches_at(s, pat, i) {
            let ghost next = s@.subrange(i + pat@.len(), s@.len() as int);
            let ghost rest_new = split_str_spec(next, pat@);
            proof {
                assert(suffix.subrange(0, pat@.len() as int) =~= s@.subrange(i as int, i + pat@.len()));
                assert(suffix.subrange(pat@.len() as int, suffix.len() as int) =~= next);
                lemma_split_str_nonempty(next, pat@);
                assert(rest_old == seq![Seq::<char>::empty()] + rest_new);
                assert(rest_old[1] == rest_new[0]);
                assert(all[d0 + 1] == rest_old[1]);
                assert forall|k: int| 1 <= k < rest_new.len() implies all[d0 + 1 + k] == rest_new[k] by {
                    assert(all[d0 + (k + 1)] == rest_old[k + 1]);
                }
                assert(all[d0] == cur@ + Seq::<char>::empty());
                assert(cur@ + Seq::<char>::empty() =~= cur@);
            }
            done.push(cur);
            cur = Vec::new();
            i = i + pat.len();
            assert(cur@ + rest_new[0] =~= rest_new[0]);
        } else {
            let ghost rest_n = split_str_spec(suffix.drop_first(), pat@);
            proof {
                if pat@.len() > 0 && pat@.len() <= suffix.len() {
                    assert(suffix.subrange(0, pat@.len() as int) =~= s@.subrange(
                        i as int,
                        i + pat@.len(),
                    ));
                }
                lemma_split_str_nonempty(suffix.drop_first(), pat@);
                assert(rest_old == rest_n.update(0, seq![suffix[0]] + rest_n[0]));
                assert forall|k: int| 1 <= k < rest_n.len() implies all[d0 + k] == rest_n[k] by {
                    assert(all[d0 + k] == rest_old[k]);
                }
            }
            assert(suffix.drop_first() =~= s@.subrange(i + 1, s@.len() as int));
            let ghost old_cur = cur@;
            cur.push(s[i]);
            assert(cur@ =~= old_cur + seq![s@[i as int]]);
            assert(old_cur + (seq![s@[i as int]] + rest_n[0]) =~= cur@ + rest_n[0]);
            i = i + 1;
        }
    }
    assert(s@.subrange(s@.len() as int, s@.len() as int) =~= Seq::<char>::empty());
    assert(cur@ + Seq::<char>::empty() =~= cur@);
    done.push(cur);
    done
}

} // verus!
