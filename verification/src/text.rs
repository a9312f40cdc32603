//! Character-level text helpers shared by the formatters, the diff and the
//! browser: number rendering, searching and slicing over character sequences.
use vstd::prelude::*;

verus! {

broadcast use vstd::std_specs::vec::group_vec_axioms;

/// `String::push` appends one character.
pub assume_specification[ String::push ](s: &mut String, ch: char)
    ensures
        final(s)@ == old(s)@.push(ch),
;

/// What `str::to_lowercase` gives for a character sequence (Unicode
/// lower-case mapping, independent of locale).
pub uninterp spec fn lowercase(s: Seq<char>) -> Seq<char>;

/// Calls `str::to_lowercase`; its result is the Unicode lower-case mapping of
/// the argument, named [`lowercase`] here and not described further.
#[verifier::external_body]
pub fn to_lower(s: &str) -> (r: String)
    ensures
        r@ == lowercase(s@),
{
    s.to_lowercase()
}

/// The characters of a string slice, in order.
pub fn chars_of(s: &str) -> (r: Vec<char>)
    ensures
        r@ == s@,
{
    let n = s.unicode_len();
    let mut r: Vec<char> = Vec::new();
    let mut i: usize = 0;
    while i < n
        invariant
            n == s@.len(),
            0 <= i <= n,
            r@ == s@.subrange(0, i as int),
        decreases n - i,
    {
        let c = s.get_char(i);
        r.push(c);
        i = i + 1;
        assert(r@ =~= s@.subrange(0, i as int));
    }
    assert(r@ =~= s@);
    r
}

/// A string holding the given characters.
pub fn string_of(v: &[char]) -> (r: String)
    ensures
        r@ == v@,
{
    let mut r = String::new();
    let mut i: usize = 0;
    while i < v.len()
        invariant
            0 <= i <= v.len(),
            r@ == v@.subrange(0, i as int),
        decreases v.len() - i,
    {
        r.push(v[i]);
        i = i + 1;
        assert(r@ =~= v@.subrange(0, i as int));
    }
    assert(r@ =~= v@);
    r
}

/// Appends a string slice.
pub fn push_str(s: &mut String, t: &str)
    ensures
        final(s)@ == old(s)@ + t@,
{
    s.append(t);
}

/// `s` repeated `n` times.
pub open spec fn repeat(s: Seq<char>, n: nat) -> Seq<char>
    decreases n,
{
    if n == 0 {
        Seq::empty()
    } else {
        repeat(s, (n - 1) as nat) + s
    }
}

/// The string `s` repeated `n` times.
pub fn repeat_str(s: &str, n: usize) -> (r: String)
    ensures
        r@ == repeat(s@, n as nat),
{
    let mut r = String::new();
    let mut i: usize = 0;
    while i < n
        invariant
            0 <= i <= n,
            r@ == repeat(s@, i as nat),
        decreases n - i,
    {
        r.append(s);
        i = i + 1;
    }
    r
}

/// `n` copies of a character.
pub open spec fn fill(c: char, n: nat) -> Seq<char> {
    Seq::new(n, |_i: int| c)
}

/// A string of `n` copies of `c`.
pub fn fill_string(c: char, n: usize) -> (r: String)
    ensures
        r@ == fill(c, n as nat),
{
    let mut r = String::new();
    let mut i: usize = 0;
    while i < n
        invariant
            0 <= i <= n,
            r@ == fill(c, i as nat),
        decreases n - i,
    {
        r.push(c);
        i = i + 1;
        assert(r@ =~= fill(c, i as nat));
    }
    r
}

// Number rendering
/// The character of a digit value below 16 (upper-case for 10..15).
pub open spec fn digit_char(d: nat) -> char {
    if d < 10 {
        (('0' as nat) + d) as char
    } else {
        (('A' as nat) + d - 10) as char
    }
}

/// The digits of `n` in base `b` (`b` >= 2), most significant first, without
/// leading zeros; `0` is the single digit `'0'`.
pub open spec fn digits(n: nat, b: nat) -> Seq<char>
    decreases n,
{
    if b < 2 || n < b {
        seq![digit_char(n % 16)]
    } else {
        proof {
            assert(n / b < n) by (nonlinear_arith)
                requires
                    b >= 2,
                    n >= b,
            ;
        }
        digits(n / b, b).push(digit_char(n % b))
    }
}

/// Decimal rendering of a number, as `to_string` prints it.
pub open spec fn decimal(n: nat) -> Seq<char> {
    digits(n, 10)
}

/// Upper-case hexadecimal rendering of a number.
pub open spec fn hex(n: nat) -> Seq<char> {
    digits(n, 16)
}

/// Binary rendering of a number.
pub open spec fn binary(n: nat) -> Seq<char> {
    digits(n, 2)
}

/// `s` left-padded with `c` up to `width` characters (unchanged when it is
/// already that long).
pub open spec fn pad_left(s: Seq<char>, c: char, width: nat) -> Seq<char> {
    if s.len() >= width {
        s
    } else {
        fill(c, (width - s.len()) as nat) + s
    }
}

proof fn lemma_digit_char_small(d: nat, b: nat)
    requires
        2 <= b <= 16,
    ensures
        digit_char(d % b) == digit_char((d % b) % 16),
{
    assert((d % b) % 16 == d % b) by (nonlinear_arith)
        requires
            2 <= b <= 16,
    ;
}

/// Renders `n` in base `b`, most significant digit first.
pub fn digits_of(n: u64, b: u64) -> (r: Vec<char>)
    requires
        2 <= b <= 16,
    ensures
        r@ == digits(n as nat, b as nat),
    decreases n,
{
    if n < b {
        let d = n % 16;
        let c = if d < 10 {
            ((48u64 + d) as u8) as char
        } else {
            ((55u64 + d) as u8) as char
        };
        let mut r: Vec<char> = Vec::new();
        r.push(c);
        proof {
            assert(c == digit_char(n as nat % 16));
            assert(r@ =~= seq![digit_char(n as nat % 16)]);
        }
        r
    } else {
        assert(n / b < n) by (nonlinear_arith)
            requires
                b >= 2,
                n >= b,
        ;
        let mut r = digits_of(n / b, b);
        let d = n % b;
        let c = if d < 10 {
            ((48u64 + d) as u8) as char
        } else {
            ((55u64 + d) as u8) as char
        };
        proof {
            assert(d < 16);
            assert(c == digit_char(d as nat));
        }
        r.push(c);
        r
    }
}

/// Decimal text of an unsigned number.
pub fn u64_to_decimal(n: u64) -> (r: String)
    ensures
        r@ == decimal(n as nat),
{
    let v = digits_of(n, 10);
    string_of(v.as_slice())
}

/// Decimal text of a signed number, with a leading `-` when negative.
pub open spec fn signed_decimal(n: int) -> Seq<char> {
    if n < 0 {
        "-"@ + decimal((-n) as nat)
    } else {
        decimal(n as nat)
    }
}

pub fn i64_to_decimal(n: i64) -> (r: String)
    ensures
        r@ == signed_decimal(n as int),
{
    if n < 0 {
        let magnitude: u64 = ((-(n + 1)) as u64) + 1;
        let mut r = "-".to_owned();
        r.append(u64_to_decimal(magnitude).as_str());
        r
    } else {
        u64_to_decimal(n as u64)
    }
}

/// Decimal text of a `usize`.
pub fn usize_to_decimal(n: usize) -> (r: String)
    ensures
        r@ == decimal(n as nat),
{
    u64_to_decimal(n as u64)
}

/// Hexadecimal text, upper-case, zero-padded to at least `width` digits.
pub fn hex_padded(n: u64, width: usize) -> (r: String)
    ensures
        r@ == pad_left(hex(n as nat), '0', width as nat),
{
    let v = digits_of(n, 16);
    let mut r = String::new();
    if v.len() < width {
        r = fill_string('0', width - v.len());
    }
    let t = string_of(v.as_slice());
    r.append(t.as_str());
    proof {
        if v@.len() >= width {
            assert(r@ =~= hex(n as nat));
        }
    }
    r
}

/// Binary text, zero-padded to at least `width` digits.
pub fn binary_padded(n: u64, width: usize) -> (r: String)
    ensures
        r@ == pad_left(binary(n as nat), '0', width as nat),
{
    let v = digits_of(n, 2);
    let mut r = String::new();
    if v.len() < width {
        r = fill_string('0', width - v.len());
    }
    let t = string_of(v.as_slice());
    r.append(t.as_str());
    proof {
        if v@.len() >= width {
            assert(r@ =~= binary(n as nat));
        }
    }
    r
}

// Searching
/// `needle` occurs in `hay` starting at position `i`.
pub open spec fn occurs_at(hay: Seq<char>, needle: Seq<char>, i: int) -> bool {
    0 <= i && i + needle.len() <= hay.len() && hay.subrange(i, i + needle.len()) == needle
}

/// `needle` occurs somewhere in `hay`.
pub open spec fn contains(hay: Seq<char>, needle: Seq<char>) -> bool {
    exists|i: int| occurs_at(hay, needle, i)
}

/// `hay` ends with `suffix`.
pub open spec fn ends_with(hay: Seq<char>, suffix: Seq<char>) -> bool {
    suffix.len() <= hay.len() && hay.subrange(hay.len() - suffix.len(), hay.len() as int)
        == suffix
}

/// `hay` starts with `prefix`.
pub open spec fn starts_with(hay: Seq<char>, prefix: Seq<char>) -> bool {
    prefix.len() <= hay.len() && hay.subrange(0, prefix.len() as int) == prefix
}

/// The position of the first occurrence of `needle` in `hay` (meaningful
/// when it occurs).
pub open spec fn first_occurrence(hay: Seq<char>, needle: Seq<char>) -> int {
    choose|i: int| occurs_at(hay, needle, i) && forall|j: int| 0 <= j < i ==> !occurs_at(hay, needle, j)
}

/// The position of the last occurrence of `needle` in `hay` (meaningful when
/// it occurs).
pub open spec fn last_occurrence(hay: Seq<char>, needle: Seq<char>) -> int {
    choose|i: int| occurs_at(hay, needle, i) && forall|j: int| i < j ==> !occurs_at(hay, needle, j)
}

/// `hay` without `suffix` when it ends with it, `hay` otherwise.
pub open spec fn strip_suffix(hay: Seq<char>, suffix: Seq<char>) -> Seq<char> {
    if ends_with(hay, suffix) {
        hay.subrange(0, hay.len() - suffix.len())
    } else {
        hay
    }
}

/// Does `needle` occur at position `i` of `hay`.
pub fn occurs_at_exec(hay: &[char], needle: &[char], i: usize) -> (r: bool)
    ensures
        r == occurs_at(hay@, needle@, i as int),
{
    if i > hay.len() || needle.len() > hay.len() - i {
        return false;
    }
    let mut k: usize = 0;
    while k < needle.len()
        invariant
            hay@.len() == hay.len(),
            needle@.len() == needle.len(),
            i + needle@.len() <= hay@.len(),
            0 <= k <= needle.len(),
            forall|j: int| 0 <= j < k ==> hay@[i + j] == needle@[j],
        decreases needle.len() - k,
    {
        if hay[i + k] != needle[k] {
            assert(hay@.subrange(i as int, i + needle@.len())[k as int] != needle@[k as int]);
            return false;
        }
        k = k + 1;
    }
    assert(hay@.subrange(i as int, i + needle@.len()) =~= needle@);
    true
}

/// The first position at which `needle` occurs in `hay`.
pub fn find_first(hay: &[char], needle: &[char]) -> (r: Option<usize>)
    ensures
        r is Some <==> contains(hay@, needle@),
        r matches Some(i) ==> occurs_at(hay@, needle@, i as int) && forall|j: int|
            0 <= j < i ==> !occurs_at(hay@, needle@, j),
        r matches Some(i) ==> i == first_occurrence(hay@, needle@),
{
    let mut i: usize = 0;
    loop
        invariant
            0 <= i <= hay.len(),
            forall|j: int| 0 <= j < i ==> !occurs_at(hay@, needle@, j),
        decreases hay.len() - i,
    {
        if occurs_at_exec(hay, needle, i) {
            proof {
                let k = first_occurrence(hay@, needle@);
                assert(occurs_at(hay@, needle@, k) && forall|j: int|
                    0 <= j < k ==> !occurs_at(hay@, needle@, j));
                assert(k >= 0);
                assert(!(k < i));
                assert(!(i < k) || !occurs_at(hay@, needle@, i as int));
            }
            return Some(i);
        }
        if i == hay.len() {
            assert forall|j: int| !occurs_at(hay@, needle@, j) by {
                if 0 <= j && occurs_at(hay@, needle@, j) {
                    assert(j <= hay@.len());
                }
            }
            return None;
        }
        i = i + 1;
    }
}

/// The last position at which `needle` occurs in `hay`.
pub fn find_last(hay: &[char], needle: &[char]) -> (r: Option<usize>)
    ensures
        r is Some <==> contains(hay@, needle@),
        r matches Some(i) ==> occurs_at(hay@, needle@, i as int) && forall|j: int|
            i < j ==> !occurs_at(hay@, needle@, j),
        r matches Some(i) ==> i == last_occurrence(hay@, needle@),
{
    let mut i: usize = hay.len();
    loop
        invariant
            0 <= i <= hay.len(),
            forall|j: int| i < j ==> !occurs_at(hay@, needle@, j),
        decreases i,
    {
        if occurs_at_exec(hay, needle, i) {
            proof {
                let k = last_occurrence(hay@, needle@);
                assert(occurs_at(hay@, needle@, k) && forall|j: int| k < j ==> !occurs_at(hay@, needle@, j));
                assert(!(i < k));
                assert(!(k < i) || !occurs_at(hay@, needle@, i as int));
            }
            return Some(i);
        }
        if i == 0 {
            assert forall|j: int| !occurs_at(hay@, needle@, j) by {
                if occurs_at(hay@, needle@, j) {
                    assert(j >= 0);
                }
            }
            return None;
        }
        i = i - 1;
    }
}

/// Does `hay` contain `needle`.
pub fn contains_exec(hay: &[char], needle: &[char]) -> (r: bool)
    ensures
        r == contains(hay@, needle@),
{
    find_first(hay, needle).is_some()
}

/// Does `hay` end with `suffix`.
pub fn ends_with_exec(hay: &[char], suffix: &[char]) -> (r: bool)
    ensures
        r == ends_with(hay@, suffix@),
{
    if suffix.len() > hay.len() {
        false
    } else {
        occurs_at_exec(hay, suffix, hay.len() - suffix.len())
    }
}

/// Does `hay` start with `prefix`.
pub fn starts_with_exec(hay: &[char], prefix: &[char]) -> (r: bool)
    ensures
        r == starts_with(hay@, prefix@),
{
    occurs_at_exec(hay, prefix, 0)
}

/// The characters `v[from..to]` as a string.
pub fn string_of_range(v: &[char], from: usize, to: usize) -> (r: String)
    requires
        from <= to <= v@.len(),
    ensures
        r@ == v@.subrange(from as int, to as int),
{
    let mut r = String::new();
    let mut i: usize = from;
    while i < to
        invariant
            from <= i <= to <= v@.len(),
            r@ == v@.subrange(from as int, i as int),
        decreases to - i,
    {
        r.push(v[i]);
        i = i + 1;
        assert(r@ =~= v@.subrange(from as int, i as int));
    }
    r
}

/// Two string slices hold the same characters.
pub fn str_eq(a: &str, b: &str) -> (r: bool)
    ensures
        r == (a@ == b@),
{
    let x = chars_of(a);
    let y = chars_of(b);
    if x.len() != y.len() {
        return false;
    }
    let mut i: usize = 0;
    while i < x.len()
        invariant
            x@ == a@,
            y@ == b@,
            x@.len() == y@.len(),
            0 <= i <= x.len(),
            forall|j: int| 0 <= j < i ==> x@[j] == y@[j],
        decreases x.len() - i,
    {
        if x[i] != y[i] {
            return false;
        }
        i = i + 1;
    }
    assert(x@ =~= y@);
    true
}

/// Lexicographic order of character sequences (code point order), the order
/// in which `String`s compare.
pub open spec fn seq_lt(a: Seq<char>, b: Seq<char>) -> bool
    decreases a.len(),
{
    if b.len() == 0 {
        false
    } else if a.len() == 0 {
        true
    } else if a[0] != b[0] {
        a[0] < b[0]
    } else {
        seq_lt(a.drop_first(), b.drop_first())
    }
}

/// No sequence comes before itself.
pub proof fn lemma_seq_lt_irreflexive(a: Seq<char>)
    ensures
        !seq_lt(a, a),
    decreases a.len(),
{
    if a.len() > 0 {
        lemma_seq_lt_irreflexive(a.drop_first());
    }
}

/// The order is transitive.
pub proof fn lemma_seq_lt_transitive(a: Seq<char>, b: Seq<char>, c: Seq<char>)
    requires
        seq_lt(a, b),
        seq_lt(b, c),
    ensures
        seq_lt(a, c),
    decreases a.len(),
{
    if a.len() > 0 && a[0] == b[0] && b[0] == c[0] {
        lemma_seq_lt_transitive(a.drop_first(), b.drop_first(), c.drop_first());
    }
}

/// Two different sequences are ordered one way or the other.
pub proof fn lemma_seq_lt_total(a: Seq<char>, b: Seq<char>)
    ensures
        a == b || seq_lt(a, b) || seq_lt(b, a),
    decreases a.len(),
{
    if a.len() == 0 && b.len() == 0 {
        assert(a =~= b);
    } else if a.len() > 0 && b.len() > 0 && a[0] == b[0] {
        lemma_seq_lt_total(a.drop_first(), b.drop_first());
        if a.drop_first() == b.drop_first() {
            assert(a =~= seq![a[0]] + a.drop_first());
            assert(b =~= seq![b[0]] + b.drop_first());
        }
    }
}

/// Compares two character sequences: -1, 0 or 1.
pub fn compare_chars(a: &[char], b: &[char]) -> (r: i8)
    ensures
        r == 0 <==> a@ == b@,
        r < 0 <==> seq_lt(a@, b@),
        r > 0 <==> seq_lt(b@, a@),
        -1 <= r <= 1,
{
    proof {
        assert(a@.subrange(0, a@.len() as int) =~= a@);
        assert(b@.subrange(0, b@.len() as int) =~= b@);
        assert(a@.subrange(0, 0) =~= b@.subrange(0, 0));
    }
    let mut i: usize = 0;
    while i < a.len() && i < b.len()
        invariant
            0 <= i <= a.len(),
            i <= b.len(),
            a@.subrange(0, i as int) == b@.subrange(0, i as int),
            seq_lt(a@, b@) == seq_lt(a@.subrange(i as int, a@.len() as int), b@.subrange(i as int, b@.len() as int)),
            seq_lt(b@, a@) == seq_lt(b@.subrange(i as int, b@.len() as int), a@.subrange(i as int, a@.len() as int)),
        decreases a.len() - i,
    {
        let x = a[i];
        let y = b[i];
        if x != y {
            proof {
                let sa = a@.subrange(i as int, a@.len() as int);
                let sb = b@.subrange(i as int, b@.len() as int);
                assert(sa[0] == x && sb[0] == y);
                if a@ == b@ {
                    assert(a@[i as int] == b@[i as int]);
                }
            }
            if x < y {
                assert(seq_lt(a@.subrange(i as int, a@.len() as int), b@.subrange(i as int, b@.len() as int)));
                return -1;
            } else {
                assert(seq_lt(b@.subrange(i as int, b@.len() as int), a@.subrange(i as int, a@.len() as int)));
                return 1;
            }
        }
        proof {
            let sa = a@.subrange(i as int, a@.len() as int);
            let sb = b@.subrange(i as int, b@.len() as int);
            assert(sa.drop_first() =~= a@.subrange(i + 1, a@.len() as int));
            assert(sb.drop_first() =~= b@.subrange(i + 1, b@.len() as int));
            assert(a@.subrange(0, i + 1) =~= a@.subrange(0, i as int).push(x));
            assert(b@.subrange(0, i + 1) =~= b@.subrange(0, i as int).push(y));
        }
        i = i + 1;
    }
    proof {
        let sa = a@.subrange(i as int, a@.len() as int);
        let sb = b@.subrange(i as int, b@.len() as int);
        if a.len() == b.len() {
            assert(a@ =~= a@.subrange(0, i as int));
            assert(b@ =~= b@.subrange(0, i as int));
        } else if a.len() < b.len() {
            assert(sa.len() == 0);
            assert(a@ =~= a@.subrange(0, i as int));
            if a@ == b@ {
                assert(false);
            }
        } else {
            assert(sb.len() == 0);
            assert(b@ =~= b@.subrange(0, i as int));
            if a@ == b@ {
                assert(false);
            }
        }
    }
    if a.len() == b.len() {
        0
    } else if a.len() < b.len() {
        -1
    } else {
        1
    }
}


/// A decimal rendering is never empty and ends with the digit of `n % 10`.
pub proof fn lemma_decimal_last(n: nat)
    ensures
        decimal(n).len() >= 1,
        decimal(n).last() == digit_char(n % 10),
{
    if n >= 10 {
        assert(decimal(n) == digits(n / 10, 10).push(digit_char(n % 10)));
    }
}

/// Different numbers have different decimal renderings.
pub proof fn lemma_decimal_injective(m: nat, n: nat)
    requires
        decimal(m) == decimal(n),
    ensures
        m == n,
    decreases m,
{
    lemma_decimal_last(m);
    lemma_decimal_last(n);
    if m >= 10 {
        lemma_decimal_last(m / 10);
    }
    if n >= 10 {
        lemma_decimal_last(n / 10);
    }
    assert(digit_char(m % 10) == digit_char(n % 10));
    assert(m % 10 == n % 10);
    if m < 10 && n < 10 {
    } else if m < 10 {
        assert(decimal(n).len() == decimal(n / 10).len() + 1);
    } else if n < 10 {
        assert(decimal(m).len() == decimal(m / 10).len() + 1);
    } else {
        assert(decimal(m).drop_last() =~= decimal(m / 10));
        assert(decimal(n).drop_last() =~= decimal(n / 10));
        lemma_decimal_injective(m / 10, n / 10);
    }
}

} // verus!
