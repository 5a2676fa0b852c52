//! Text as sequences of characters: splitting, joining, searching, rewriting and
//! ordering, each with its meaning as a spec function over `Seq<char>`.

use vstd::prelude::*;

verus! {

/// The segments of `s` between occurrences of `sep`. There is always at least one
/// segment; two adjacent separators enclose an empty one.
pub open spec fn split(s: Seq<char>, sep: char) -> Seq<Seq<char>>
    decreases s.len(),
{
    if s.len() == 0 {
        seq![Seq::<char>::empty()]
    } else {
        let before = split(s.drop_last(), sep);
        if s.last() == sep {
            before.push(Seq::<char>::empty())
        } else {
            before.drop_last().push(before.last().push(s.last()))
        }
    }
}

/// The segments `parts` written one after another with `sep` between neighbours.
pub open spec fn join(parts: Seq<Seq<char>>, sep: char) -> Seq<char>
    decreases parts.len(),
{
    if parts.len() == 0 {
        Seq::<char>::empty()
    } else if parts.len() == 1 {
        parts[0]
    } else {
        join(parts.drop_last(), sep).push(sep) + parts.last()
    }
}

/// How often `c` occurs in `s`.
pub open spec fn count(s: Seq<char>, c: char) -> nat
    decreases s.len(),
{
    if s.len() == 0 {
        0
    } else {
        count(s.drop_last(), c) + if s.last() == c { 1nat } else { 0nat }
    }
}

/// The views of the vectors in `parts`.
pub open spec fn views(parts: Seq<Vec<char>>) -> Seq<Seq<char>> {
    Seq::new(parts.len(), |i: int| parts[i]@)
}

/// A split has one segment more than the text has separators.
pub proof fn lemma_split_len(s: Seq<char>, sep: char)
    ensures
        split(s, sep).len() == count(s, sep) + 1,
    decreases s.len(),
{
    if s.len() > 0 {
        lemma_split_len(s.drop_last(), sep);
    }
}

/// No segment of a split holds the separator.
pub proof fn lemma_split_segments_free_of_sep(s: Seq<char>, sep: char)
    ensures
        forall|k: int, j: int|
            0 <= k < split(s, sep).len() && 0 <= j < split(s, sep)[k].len() ==> split(
                s,
                sep,
            )[k][j] != sep,
    decreases s.len(),
{
    if s.len() > 0 {
        lemma_split_len(s.drop_last(), sep);
        lemma_split_segments_free_of_sep(s.drop_last(), sep);
    }
}

/// Joining the segments of a split with the separator gives the text back.
pub proof fn lemma_join_split(s: Seq<char>, sep: char)
    ensures
        join(split(s, sep), sep) == s,
    decreases s.len(),
{
    if s.len() > 0 {
        let before = split(s.drop_last(), sep);
        lemma_split_len(s.drop_last(), sep);
        lemma_join_split(s.drop_last(), sep);
        if s.last() == sep {
            assert(before.push(Seq::<char>::empty()).drop_last() == before);
            assert(s == s.drop_last().push(sep));
        } else {
            let after = before.drop_last().push(before.last().push(s.last()));
            assert(after.drop_last() == before.drop_last());
            if before.len() == 1 {
                assert(s == s.drop_last().push(s.last()));
            } else {
                assert(join(before.drop_last(), sep).push(sep) + before.last().push(s.last())
                    == (join(before.drop_last(), sep).push(sep) + before.last()).push(s.last()));
                assert(s == s.drop_last().push(s.last()));
            }
        }
    }
}

/// A text without the separator is its own single segment.
pub proof fn lemma_split_without_sep(s: Seq<char>, sep: char)
    requires
        !s.contains(sep),
    ensures
        split(s, sep) == seq![s],
    decreases s.len(),
{
    if s.len() > 0 {
        assert(s.last() == s[s.len() - 1]);
        assert forall|i: int| 0 <= i < s.drop_last().len() implies s.drop_last()[i] != sep by {
            assert(s.drop_last()[i] == s[i]);
        }
        lemma_split_without_sep(s.drop_last(), sep);
        assert(s.drop_last().push(s.last()) == s);
        assert(seq![s.drop_last()].drop_last().push(s.drop_last().push(s.last())) == seq![s]);
    } else {
        assert(s == Seq::<char>::empty());
    }
}

/// Where a separator stands between two texts, the segments of the whole are those
/// of the first text, then those of the second.
pub proof fn lemma_split_around_sep(a: Seq<char>, b: Seq<char>, sep: char)
    ensures
        split(a.push(sep) + b, sep) == split(a, sep) + split(b, sep),
    decreases b.len(),
{
    let whole = a.push(sep) + b;
    if b.len() == 0 {
        assert(whole == a.push(sep));
        assert(whole.drop_last() == a);
        assert(split(a, sep).push(Seq::<char>::empty()) == split(a, sep) + split(b, sep));
    } else {
        lemma_split_around_sep(a, b.drop_last(), sep);
        lemma_split_len(b.drop_last(), sep);
        assert(whole.drop_last() == a.push(sep) + b.drop_last());
        assert(whole.last() == b.last());
        let left = split(a, sep);
        let right = split(b.drop_last(), sep);
        if b.last() == sep {
            assert((left + right).push(Seq::<char>::empty()) == left + right.push(
                Seq::<char>::empty(),
            ));
        } else {
            assert((left + right).drop_last() == left + right.drop_last());
            assert((left + right).last() == right.last());
            assert((left + right.drop_last()).push(right.last().push(b.last())) == left
                + right.drop_last().push(right.last().push(b.last())));
        }
    }
}

/// Copies the characters of `s` into a vector.
pub fn to_chars(s: &str) -> (r: Vec<char>)
    ensures
        r@ == s@,
{
    let mut out: Vec<char> = Vec::new();
    for c in it: s.chars()
        invariant
            out@ == it.seq().take(it.index() as int),
    {
        out.push(c);
    }
    out
}

/// `String::push` of std: the string grows by the one character `c` at its end.
#[verifier::external_body]
fn push_char(s: &mut String, c: char)
    ensures
        final(s)@ == old(s)@.push(c),
{
    s.push(c);
}

/// The string that holds the characters of `chars`, in their order.
pub fn to_string(chars: &Vec<char>) -> (r: String)
    ensures
        r@ == chars@,
{
    let mut out = String::new();
    let mut i: usize = 0;
    while i < chars.len()
        invariant
            i <= chars.len(),
            out@ == chars@.take(i as int),
        decreases chars.len() - i,
    {
        push_char(&mut out, chars[i]);
        i += 1;
        assert(chars@.take(i as int) == chars@.take(i - 1).push(chars@[i - 1]));
    }
    assert(chars@.take(i as int) == chars@);
    out
}

/// Splits `s` at every occurrence of `sep`.
pub fn split_chars(s: &Vec<char>, sep: char) -> (r: Vec<Vec<char>>)
    ensures
        views(r@) == split(s@, sep),
{
    let mut parts: Vec<Vec<char>> = Vec::new();
    let mut cur: Vec<char> = Vec::new();
    let mut i: usize = 0;
    assert(s@.take(0) == Seq::<char>::empty());
    assert(views(parts@).push(cur@) == split(s@.take(0), sep));
    while i < s.len()
        invariant
            i <= s.len(),
            views(parts@).push(cur@) == split(s@.take(i as int), sep),
        decreases s.len() - i,
    {
        let ghost before = split(s@.take(i as int), sep);
        let ghost done = views(parts@);
        let c = s[i];
        proof {
            assert(s@.take(i + 1).drop_last() == s@.take(i as int));
            assert(s@.take(i + 1).last() == c);
            assert(before.drop_last() == done);
            assert(before.last() == cur@);
        }
        if c == sep {
            parts.push(cur);
            cur = Vec::new();
            assert(views(parts@) == before);
        } else {
            cur.push(c);
        }
        i += 1;
    }
    assert(s@.take(i as int) == s@);
    parts.push(cur);
    assert(views(parts@) == split(s@, sep));
    parts
}

/// Joins the segments `parts[from..to]` with `sep`.
pub fn join_chars(parts: &Vec<Vec<char>>, from: usize, to: usize, sep: char) -> (r: Vec<char>)
    requires
        from <= to <= parts.len(),
    ensures
        r@ == join(views(parts@).subrange(from as int, to as int), sep),
{
    let mut out: Vec<char> = Vec::new();
    let mut k: usize = from;
    while k < to
        invariant
            from <= k <= to <= parts.len(),
            out@ == join(views(parts@).subrange(from as int, k as int), sep),
        decreases to - k,
    {
        let ghost chosen = views(parts@).subrange(from as int, k + 1);
        proof {
            assert(chosen.drop_last() == views(parts@).subrange(from as int, k as int));
            assert(chosen.last() == parts@[k as int]@);
        }
        if k > from {
            out.push(sep);
        }
        let part = &parts[k];
        let ghost head = out@;
        let mut j: usize = 0;
        while j < part.len()
            invariant
                j <= part.len(),
                out@ == head + part@.take(j as int),
            decreases part.len() - j,
        {
            out.push(part[j]);
            j += 1;
            assert(part@.take(j as int) == part@.take(j - 1).push(part@[j - 1]));
        }
        assert(part@.take(j as int) == part@);
        k += 1;
    }
    out
}

/// Whether `pat` stands in `s` at position `i`.
pub open spec fn occurs_at(s: Seq<char>, pat: Seq<char>, i: int) -> bool {
    0 <= i && i + pat.len() <= s.len() && s.subrange(i, i + pat.len()) == pat
}

/// Whether `pat` stands somewhere in `s`.
pub open spec fn contains(s: Seq<char>, pat: Seq<char>) -> bool {
    exists|i: int| occurs_at(s, pat, i)
}

/// `s` with every occurrence of `pat` replaced by `with`, the occurrences taken
/// from the left and not overlapping. An empty pattern leaves `s` as it is.
pub open spec fn replace(s: Seq<char>, pat: Seq<char>, with: Seq<char>) -> Seq<char>
    decreases s.len(),
{
    if pat.len() == 0 || s.len() < pat.len() {
        s
    } else if s.take(pat.len() as int) == pat {
        with + replace(s.skip(pat.len() as int), pat, with)
    } else {
        seq![s[0]] + replace(s.skip(1), pat, with)
    }
}

/// The lexicographic order of texts by the scalar values of their characters:
/// whether `a` comes strictly after `b`.
pub open spec fn greater(a: Seq<char>, b: Seq<char>) -> bool
    decreases a.len(),
{
    if a.len() == 0 {
        false
    } else if b.len() == 0 {
        true
    } else if a[0] != b[0] {
        a[0] > b[0]
    } else {
        greater(a.skip(1), b.skip(1))
    }
}

/// Whether `pat` stands in `s` at position `i`.
pub fn matches_at(s: &Vec<char>, pat: &Vec<char>, i: usize) -> (r: bool)
    ensures
        r == occurs_at(s@, pat@, i as int),
{
    if pat.len() > s.len() || i > s.len() - pat.len() {
        return false;
    }
    let mut j: usize = 0;
    while j < pat.len()
        invariant
            j <= pat.len(),
            i + pat.len() <= s.len(),
            forall|k: int| 0 <= k < j ==> s@[i + k] == pat@[k],
        decreases pat.len() - j,
    {
        if s[i + j] != pat[j] {
            assert(s@.subrange(i as int, i + pat.len())[j as int] != pat@[j as int]);
            return false;
        }
        j += 1;
    }
    assert(s@.subrange(i as int, i + pat.len()) =~= pat@);
    true
}

/// Whether `pat` stands somewhere in `s`.
pub fn contains_chars(s: &Vec<char>, pat: &Vec<char>) -> (r: bool)
    ensures
        r == contains(s@, pat@),
{
    if pat.len() > s.len() {
        return false;
    }
    let last: usize = s.len() - pat.len();
    let mut i: usize = 0;
    while i < last
        invariant
            i <= last,
            last == s.len() - pat.len(),
            forall|k: int| 0 <= k < i ==> !occurs_at(s@, pat@, k),
        decreases last - i,
    {
        if matches_at(s, pat, i) {
            return true;
        }
        i += 1;
    }
    matches_at(s, pat, last)
}

/// `s` with every occurrence of `pat` replaced by `with`.
pub fn replace_chars(s: &Vec<char>, pat: &Vec<char>, with: &Vec<char>) -> (r: Vec<char>)
    ensures
        r@ == replace(s@, pat@, with@),
{
    let mut out: Vec<char> = Vec::new();
    let mut i: usize = 0;
    assert(s@.skip(0) == s@);
    while i < s.len()
        invariant
            i <= s.len(),
            out@ + replace(s@.skip(i as int), pat@, with@) == replace(s@, pat@, with@),
        decreases s.len() - i,
    {
        let ghost rest = s@.skip(i as int);
        let ghost head = out@;
        if pat.len() == 0 {
            out.push(s[i]);
            i += 1;
            assert(head.push(s@[i - 1]) + s@.skip(i as int) == head + rest);
        } else if matches_at(s, pat, i) {
            assert(rest.take(pat.len() as int) == s@.subrange(i as int, i + pat.len()));
            assert(rest.skip(pat.len() as int) == s@.skip(i + pat.len()));
            let mut j: usize = 0;
            while j < with.len()
                invariant
                    j <= with.len(),
                    out@ == head + with@.take(j as int),
                decreases with.len() - j,
            {
                out.push(with[j]);
                j += 1;
                assert(with@.take(j as int) == with@.take(j - 1).push(with@[j - 1]));
            }
            assert(with@.take(j as int) == with@);
            i += pat.len();
            assert((head + with@) + replace(s@.skip(i as int), pat@, with@) == head + (with@
                + replace(s@.skip(i as int), pat@, with@)));
        } else {
            assert(rest.len() >= pat.len() ==> rest.take(pat.len() as int) == s@.subrange(
                i as int,
                i + pat.len(),
            ));
            assert(rest.skip(1) == s@.skip(i + 1));
            out.push(s[i]);
            i += 1;
            proof {
                if rest.len() < pat.len() {
                    assert(head.push(rest[0]) + s@.skip(i as int) == head + rest);
                } else {
                    assert(head.push(rest[0]) + replace(s@.skip(i as int), pat@, with@) == head
                        + (seq![rest[0]] + replace(s@.skip(i as int), pat@, with@)));
                }
            }
        }
    }
    assert(out@ + Seq::<char>::empty() == out@);
    out
}

/// Whether `a` comes strictly after `b` in the lexicographic order.
pub fn is_greater(a: &Vec<char>, b: &Vec<char>) -> (r: bool)
    ensures
        r == greater(a@, b@),
{
    let mut i: usize = 0;
    assert(a@.skip(0) == a@ && b@.skip(0) == b@);
    while i < a.len() && i < b.len()
        invariant
            i <= a.len(),
            i <= b.len(),
            greater(a@, b@) == greater(a@.skip(i as int), b@.skip(i as int)),
        decreases a.len() - i,
    {
        let x = a[i];
        let y = b[i];
        assert(a@.skip(i as int)[0] == x && b@.skip(i as int)[0] == y);
        if x != y {
            assert(greater(a@.skip(i as int), b@.skip(i as int)) == (x > y));
            return x > y;
        }
        assert(a@.skip(i as int).skip(1) == a@.skip(i + 1));
        assert(b@.skip(i as int).skip(1) == b@.skip(i + 1));
        i += 1;
    }
    i < a.len()
}

/// Whether `a` and `b` hold the same characters.
pub fn same_text(a: &Vec<char>, b: &Vec<char>) -> (r: bool)
    ensures
        r == (a@ == b@),
{
    if a.len() != b.len() {
        return false;
    }
    let mut i: usize = 0;
    while i < a.len()
        invariant
            i <= a.len(),
            a.len() == b.len(),
            a@.take(i as int) == b@.take(i as int),
        decreases a.len() - i,
    {
        if a[i] != b[i] {
            return false;
        }
        i += 1;
        assert(a@.take(i as int) == a@.take(i - 1).push(a@[i - 1]));
        assert(b@.take(i as int) == b@.take(i - 1).push(b@[i - 1]));
    }
    assert(a@.take(i as int) == a@ && b@.take(i as int) == b@);
    true
}

/// Whether `s` is made of decimal digits alone.
pub open spec fn is_digits(s: Seq<char>) -> bool {
    forall|i: int| 0 <= i < s.len() ==> '0' <= #[trigger] s[i] <= '9'
}

/// The number that one decimal digit stands for.
pub open spec fn digit(c: char) -> nat {
    (c as int - '0' as int) as nat
}

/// The number that follows `n` zeros behind a one.
pub open spec fn power_of_ten(n: nat) -> nat
    decreases n,
{
    if n == 0 {
        1
    } else {
        10 * power_of_ten((n - 1) as nat)
    }
}

/// The number that the digits of `s` write, the first digit weighing most.
pub open spec fn decimal(s: Seq<char>) -> nat
    decreases s.len(),
{
    if s.len() == 0 {
        0
    } else {
        digit(s[0]) * power_of_ten((s.len() - 1) as nat) + decimal(s.skip(1))
    }
}

/// Digits write a number below the power of ten of their count.
pub proof fn lemma_decimal_bound(s: Seq<char>)
    requires
        is_digits(s),
    ensures
        decimal(s) < power_of_ten(s.len()),
    decreases s.len(),
{
    if s.len() > 0 {
        assert forall|i: int| 0 <= i < s.skip(1).len() implies '0' <= #[trigger] s.skip(1)[i]
            <= '9' by {
            assert(s.skip(1)[i] == s[i + 1]);
        }
        lemma_decimal_bound(s.skip(1));
        let weight = power_of_ten((s.len() - 1) as nat);
        assert(digit(s[0]) <= 9);
        assert(digit(s[0]) * weight + weight <= 10 * weight) by (nonlinear_arith)
            requires
                digit(s[0]) <= 9,
        ;
    }
}

/// On numbers of the same count of digits the order of texts is the order of
/// numbers: one comes after the other as a text exactly where it is the greater
/// number.
pub proof fn lemma_greater_is_numeric(a: Seq<char>, b: Seq<char>)
    requires
        is_digits(a),
        is_digits(b),
        a.len() == b.len(),
    ensures
        greater(a, b) <==> decimal(a) > decimal(b),
    decreases a.len(),
{
    if a.len() > 0 {
        assert forall|i: int| 0 <= i < a.skip(1).len() implies '0' <= #[trigger] a.skip(1)[i]
            <= '9' by {
            assert(a.skip(1)[i] == a[i + 1]);
        }
        assert forall|i: int| 0 <= i < b.skip(1).len() implies '0' <= #[trigger] b.skip(1)[i]
            <= '9' by {
            assert(b.skip(1)[i] == b[i + 1]);
        }
        let weight = power_of_ten((a.len() - 1) as nat);
        lemma_decimal_bound(a.skip(1));
        lemma_decimal_bound(b.skip(1));
        if a[0] == b[0] {
            lemma_greater_is_numeric(a.skip(1), b.skip(1));
        } else if a[0] > b[0] {
            assert(digit(a[0]) * weight >= digit(b[0]) * weight + weight) by (nonlinear_arith)
                requires
                    digit(a[0]) >= digit(b[0]) + 1,
            ;
        } else {
            assert(digit(b[0]) * weight >= digit(a[0]) * weight + weight) by (nonlinear_arith)
                requires
                    digit(b[0]) >= digit(a[0]) + 1,
            ;
        }
    }
}

/// A number whose first digit is not zero is at least the power of ten of the
/// count of digits behind that first one.
pub proof fn lemma_decimal_lower_bound(s: Seq<char>)
    requires
        is_digits(s),
        s.len() > 0,
        s[0] != '0',
    ensures
        decimal(s) >= power_of_ten((s.len() - 1) as nat),
{
    let weight = power_of_ten((s.len() - 1) as nat);
    assert(digit(s[0]) >= 1);
    assert(digit(s[0]) * weight >= weight) by (nonlinear_arith)
        requires
            digit(s[0]) >= 1,
    ;
}

/// A greater count of zeros gives the greater power of ten.
pub proof fn lemma_power_of_ten_grows(m: nat, n: nat)
    requires
        m <= n,
    ensures
        power_of_ten(m) <= power_of_ten(n),
    decreases n,
{
    if m < n {
        lemma_power_of_ten_grows(m, (n - 1) as nat);
    }
}

/// Of two numbers without a zero in front, the one of more digits is the greater.
pub proof fn lemma_longer_number_is_greater(a: Seq<char>, b: Seq<char>)
    requires
        is_digits(a),
        is_digits(b),
        a.len() > b.len(),
        a[0] != '0',
    ensures
        decimal(a) > decimal(b),
{
    lemma_decimal_lower_bound(a);
    lemma_decimal_bound(b);
    lemma_power_of_ten_grows(b.len(), (a.len() - 1) as nat);
}

/// Whether `s` is made of decimal digits alone.
pub fn all_digits(s: &Vec<char>) -> (r: bool)
    ensures
        r == is_digits(s@),
{
    let mut i: usize = 0;
    while i < s.len()
        invariant
            i <= s.len(),
            forall|k: int| 0 <= k < i ==> '0' <= #[trigger] s@[k] <= '9',
        decreases s.len() - i,
    {
        let c = s[i];
        if c < '0' || c > '9' {
            return false;
        }
        i += 1;
    }
    true
}

/// The digits of `s` without the zeros in front of them.
fn without_leading_zeros(s: &Vec<char>) -> (r: Vec<char>)
    requires
        is_digits(s@),
    ensures
        is_digits(r@),
        decimal(r@) == decimal(s@),
        r@.len() > 0 ==> r@[0] != '0',
{
    let mut from: usize = 0;
    assert(s@.skip(0) == s@);
    while from < s.len() && s[from] == '0'
        invariant
            from <= s.len(),
            decimal(s@.skip(from as int)) == decimal(s@),
        decreases s.len() - from,
    {
        proof {
            let rest = s@.skip(from as int);
            assert(rest[0] == '0');
            assert(rest.skip(1) == s@.skip(from + 1));
            assert(digit(rest[0]) == 0);
            assert(decimal(rest) == digit(rest[0]) * power_of_ten((rest.len() - 1) as nat)
                + decimal(rest.skip(1)));
        }
        from += 1;
    }
    let mut out: Vec<char> = Vec::new();
    let mut i: usize = from;
    while i < s.len()
        invariant
            from <= i <= s.len(),
            out@ == s@.subrange(from as int, i as int),
        decreases s.len() - i,
    {
        out.push(s[i]);
        i += 1;
        assert(s@.subrange(from as int, i as int) == s@.subrange(from as int, i - 1).push(
            s@[i - 1],
        ));
    }
    assert(out@ == s@.skip(from as int));
    assert forall|k: int| 0 <= k < out@.len() implies '0' <= #[trigger] out@[k] <= '9' by {
        assert(out@[k] == s@[from + k]);
    }
    out
}

/// Whether the number that `a` writes is greater than the number that `b` writes,
/// however many digits each has.
pub(crate) fn is_greater_number(a: &Vec<char>, b: &Vec<char>) -> (r: bool)
    requires
        is_digits(a@),
        is_digits(b@),
    ensures
        r == (decimal(a@) > decimal(b@)),
{
    let x = without_leading_zeros(a);
    let y = without_leading_zeros(b);
    if x.len() > y.len() {
        proof {
            lemma_longer_number_is_greater(x@, y@);
        }
        true
    } else if x.len() < y.len() {
        proof {
            lemma_longer_number_is_greater(y@, x@);
        }
        false
    } else {
        proof {
            lemma_greater_is_numeric(x@, y@);
        }
        is_greater(&x, &y)
    }
}

} // verus!
