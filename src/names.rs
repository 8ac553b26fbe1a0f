//! Names and sizes read from asset file names.

use vstd::prelude::*;
use crate::error::LoadError;

verus! {

/// Position of the last occurrence of `c` in `s`, or -1 when there is none.
pub open spec fn last_pos(s: Seq<char>, c: char) -> int
    decreases s.len(),
{
    if s.len() == 0 {
        -1
    } else if s.last() == c {
        s.len() - 1
    } else {
        last_pos(s.drop_last(), c)
    }
}

/// Position of the first `.` at or after `i`, or the length of `s` when there is none.
pub open spec fn dot_from(s: Seq<char>, i: int) -> int
    decreases s.len() - i,
{
    if i >= s.len() {
        s.len() as int
    } else if s[i] == '.' {
        i
    } else {
        dot_from(s, i + 1)
    }
}

/// The base name of a file name: everything before the first `.` that is not
/// its first character (a leading dot belongs to the name).
pub open spec fn file_prefix(name: Seq<char>) -> Seq<char> {
    name.take(dot_from(name, 1))
}

pub open spec fn is_digit(c: char) -> bool {
    '0' <= c <= '9'
}

pub open spec fn all_digits(s: Seq<char>) -> bool {
    forall|i: int| 0 <= i < s.len() ==> is_digit(#[trigger] s[i])
}

/// The value of a string of decimal digits.
pub open spec fn digits_value(s: Seq<char>) -> int
    decreases s.len(),
{
    if s.len() == 0 {
        0
    } else {
        10 * digits_value(s.drop_last()) + (s.last() as int - '0' as int)
    }
}

/// A cell dimension: a nonempty run of decimal digits whose value is a
/// positive `i32`.
pub open spec fn dim_of(s: Seq<char>) -> Option<int> {
    if s.len() > 0 && all_digits(s) && 1 <= digits_value(s) <= i32::MAX {
        Some(digits_value(s))
    } else {
        None
    }
}

/// The cell size encoded by a dimension token `WxH`.
pub open spec fn size_of_token(t: Seq<char>) -> Option<(int, int)> {
    let p = last_pos(t, 'x');
    if p < 0 {
        None
    } else {
        match (dim_of(t.take(p)), dim_of(t.skip(p + 1))) {
            (Some(w), Some(h)) => Some((w, h)),
            _ => None,
        }
    }
}

/// The sheet key of a base name: the base name without its last `_` and what follows.
pub open spec fn sheet_key(base: Seq<char>) -> Seq<char> {
    base.take(last_pos(base, '_'))
}

/// The dimension token of a base name: what follows its last `_`.
pub open spec fn size_token(base: Seq<char>) -> Seq<char> {
    base.skip(last_pos(base, '_') + 1)
}

/// The decimal digit for `d < 10`.
pub open spec fn digit_char(d: nat) -> char {
    if d == 0 { '0' }
    else if d == 1 { '1' }
    else if d == 2 { '2' }
    else if d == 3 { '3' }
    else if d == 4 { '4' }
    else if d == 5 { '5' }
    else if d == 6 { '6' }
    else if d == 7 { '7' }
    else if d == 8 { '8' }
    else { '9' }
}

/// The decimal representation of `n`, without leading zeros.
pub open spec fn decimal(n: nat) -> Seq<char>
    decreases n,
{
    if n < 10 {
        seq![digit_char(n)]
    } else {
        decimal(n / 10).push(digit_char(n % 10))
    }
}

/// The name of cell `index` of the sheet registered under `key`.
pub open spec fn sprite_name(key: Seq<char>, index: nat) -> Seq<char> {
    key + seq!['_'] + decimal(index)
}

/// What the file name of a sheet image encodes: the sheet key and the cell
/// width and height.
pub open spec fn parse_sheet_name(name: Seq<char>) -> Result<(Seq<char>, int, int), LoadError> {
    let base = file_prefix(name);
    if last_pos(base, '_') < 0 {
        Err(LoadError::MissingSizeSuffix)
    } else {
        match size_of_token(size_token(base)) {
            Some((w, h)) => Ok((sheet_key(base), w, h)),
            None => Err(LoadError::InvalidSize),
        }
    }
}

/// Reads the sheet key and the cell size from the file name of a sheet image,
/// such as `tiles_10x10.png`.
pub fn parse_sheet_file_name(file_name: &str) -> (r: Result<(String, i32, i32), LoadError>)
    ensures
        match parse_sheet_name(file_name@) {
            Ok((key, w, h)) => r matches Ok((k, rw, rh)) && k@ == key && rw == w && rh == h,
            Err(e) => r == Err::<(String, i32, i32), LoadError>(e),
        },
{
    let s = chars_of(file_name);
    let d = find_prefix_end(&s);
    let ghost base = s@.take(d as int);
    assert(s@.subrange(0, d as int) =~= base);
    let u = match find_last(&s, 0, d, '_') {
        Some(u) => u,
        None => {
            return Err(LoadError::MissingSizeSuffix);
        },
    };
    let ghost token = size_token(base);
    assert(s@.subrange(u + 1, d as int) =~= token);
    let x = match find_last(&s, u + 1, d, 'x') {
        Some(x) => x,
        None => {
            return Err(LoadError::InvalidSize);
        },
    };
    let ghost p = x - (u + 1);
    assert(s@.subrange(u + 1, x as int) =~= token.take(p));
    assert(s@.subrange(x + 1, d as int) =~= token.skip(p + 1));
    let w = match parse_dim(&s, u + 1, x) {
        Some(w) => w,
        None => {
            return Err(LoadError::InvalidSize);
        },
    };
    let h = match parse_dim(&s, x + 1, d) {
        Some(h) => h,
        None => {
            return Err(LoadError::InvalidSize);
        },
    };
    let key = file_name.substring_char(0, u);
    assert(key@ =~= sheet_key(base));
    Ok((String::from_str(key), w, h))
}

/// The string of one decimal digit.
fn digit_str(d: usize) -> (r: &'static str)
    requires
        d < 10,
    ensures
        r@ == seq![digit_char(d as nat)],
{
    proof {
        reveal_strlit("0");
        reveal_strlit("1");
        reveal_strlit("2");
        reveal_strlit("3");
        reveal_strlit("4");
        reveal_strlit("5");
        reveal_strlit("6");
        reveal_strlit("7");
        reveal_strlit("8");
        reveal_strlit("9");
    }
    if d == 0 { "0" }
    else if d == 1 { "1" }
    else if d == 2 { "2" }
    else if d == 3 { "3" }
    else if d == 4 { "4" }
    else if d == 5 { "5" }
    else if d == 6 { "6" }
    else if d == 7 { "7" }
    else if d == 8 { "8" }
    else { "9" }
}

/// Writes `n` in decimal.
pub fn decimal_string(n: usize) -> (r: String)
    ensures
        r@ == decimal(n as nat),
    decreases n,
{
    if n < 10 {
        let r = String::from_str(digit_str(n));
        assert(r@ =~= decimal(n as nat));
        r
    } else {
        let mut r = decimal_string(n / 10);
        r.append(digit_str(n % 10));
        assert(r@ =~= decimal(n as nat));
        r
    }
}

/// Forms the name of cell `index` of the sheet registered under `key`.
pub fn make_sprite_name(key: &String, index: usize) -> (r: String)
    ensures
        r@ == sprite_name(key@, index as nat),
{
    proof {
        reveal_strlit("_");
    }
    let mut r = key.clone();
    r.append("_");
    let digits = decimal_string(index);
    r.append(digits.as_str());
    assert(r@ =~= sprite_name(key@, index as nat));
    r
}

/// Reads the characters of a string slice into a vector.
pub fn chars_of(s: &str) -> (r: Vec<char>)
    ensures
        r@ == s@,
{
    let n = s.unicode_len();
    let mut r: Vec<char> = Vec::new();
    let mut i: usize = 0;
    while i < n
        invariant
            n == s@.len(),
            i <= n,
            r@ == s@.take(i as int),
        decreases n - i,
    {
        r.push(s.get_char(i));
        i = i + 1;
        assert(r@ =~= s@.take(i as int));
    }
    assert(r@ =~= s@);
    r
}

/// Finds the last occurrence of `c` in `s[start..end]`, as a position in `s`.
pub fn find_last(s: &Vec<char>, start: usize, end: usize, c: char) -> (r: Option<usize>)
    requires
        start <= end <= s@.len(),
    ensures
        match r {
            Some(p) => start <= p < end && p - start == last_pos(
                s@.subrange(start as int, end as int),
                c,
            ),
            None => last_pos(s@.subrange(start as int, end as int), c) == -1,
        },
{
    let ghost whole = s@.subrange(start as int, end as int);
    let mut i: usize = end;
    assert(whole.take(i - start) =~= whole);
    while i > start
        invariant
            start <= i <= end <= s@.len(),
            whole == s@.subrange(start as int, end as int),
            last_pos(whole, c) == last_pos(whole.take(i - start), c),
        decreases i,
    {
        let ghost part = whole.take(i - start);
        if s[i - 1] == c {
            assert(part.last() == c);
            return Some(i - 1);
        }
        assert(part.drop_last() =~= whole.take(i - 1 - start));
        i = i - 1;
    }
    None
}

/// Finds the end of the base name of a file name.
pub fn find_prefix_end(s: &Vec<char>) -> (r: usize)
    ensures
        r as int == dot_from(s@, 1),
        r <= s@.len(),
{
    if s.len() == 0 {
        return 0;
    }
    let mut i: usize = 1;
    while i < s.len()
        invariant
            1 <= i <= s@.len(),
            dot_from(s@, 1) == dot_from(s@, i as int),
        decreases s@.len() - i,
    {
        if s[i] == '.' {
            return i;
        }
        i = i + 1;
    }
    i
}

proof fn lemma_digits_nonneg(s: Seq<char>)
    requires
        all_digits(s),
    ensures
        digits_value(s) >= 0,
    decreases s.len(),
{
    if s.len() > 0 {
        lemma_digits_nonneg(s.drop_last());
    }
}

proof fn lemma_digits_prefix(s: Seq<char>, i: int)
    requires
        all_digits(s),
        0 <= i <= s.len(),
    ensures
        digits_value(s.take(i)) <= digits_value(s),
    decreases s.len(),
{
    if i < s.len() {
        lemma_digits_nonneg(s.drop_last());
        lemma_digits_prefix(s.drop_last(), i);
        assert(s.drop_last().take(i) =~= s.take(i));
    } else {
        assert(s.take(i) =~= s);
    }
}

/// Reads the dimension held by `t[from..to]`.
pub fn parse_dim(t: &Vec<char>, from: usize, to: usize) -> (r: Option<i32>)
    requires
        from <= to <= t@.len(),
    ensures
        match dim_of(t@.subrange(from as int, to as int)) {
            Some(v) => r == Some(v as i32),
            None => r is None,
        },
{
    if from == to {
        return None;
    }
    let ghost whole = t@.subrange(from as int, to as int);
    let mut acc: i64 = 0;
    let mut i: usize = from;
    assert(t@.subrange(from as int, i as int) =~= Seq::<char>::empty());
    while i < to
        invariant
            from <= i <= to <= t@.len(),
            whole == t@.subrange(from as int, to as int),
            all_digits(t@.subrange(from as int, i as int)),
            acc as int == digits_value(t@.subrange(from as int, i as int)),
            0 <= acc <= i32::MAX,
        decreases to - i,
    {
        let c = t[i];
        if !('0' <= c && c <= '9') {
            assert(whole[i - from] == c);
            return None;
        }
        let ghost before = t@.subrange(from as int, i as int);
        let ghost after = t@.subrange(from as int, i + 1);
        assert(after.drop_last() =~= before);
        acc = acc * 10 + (c as u32 - '0' as u32) as i64;
        i = i + 1;
        assert(all_digits(after)) by {
            assert forall|j: int| 0 <= j < after.len() implies is_digit(#[trigger] after[j]) by {
                if j < before.len() {
                    assert(after[j] == before[j]);
                }
            }
        }
        if acc > i32::MAX as i64 {
            proof {
                if all_digits(whole) {
                    lemma_digits_prefix(whole, i - from);
                    assert(whole.take(i - from) =~= after);
                }
            }
            return None;
        }
    }
    assert(t@.subrange(from as int, i as int) =~= whole);
    if acc == 0 {
        return None;
    }
    Some(acc as i32)
}

proof fn lemma_decimal_digits(n: nat)
    ensures
        all_digits(decimal(n)),
        decimal(n).len() >= 1,
        n >= 10 ==> decimal(n).len() >= 2,
    decreases n,
{
    if n >= 10 {
        lemma_decimal_digits(n / 10);
        let d = decimal(n / 10);
        assert forall|i: int| 0 <= i < decimal(n).len() implies is_digit(#[trigger] decimal(n)[i]) by {
            if i < d.len() {
                assert(decimal(n)[i] == d[i]);
            }
        }
    }
}

proof fn lemma_decimal_injective(n: nat, m: nat)
    requires
        decimal(n) == decimal(m),
    ensures
        n == m,
    decreases n,
{
    lemma_decimal_digits(n);
    lemma_decimal_digits(m);
    if n < 10 && m < 10 {
        assert(decimal(n)[0] == digit_char(n));
        assert(decimal(m)[0] == digit_char(m));
    } else if n >= 10 && m >= 10 {
        assert(decimal(n).drop_last() =~= decimal(n / 10));
        assert(decimal(m).drop_last() =~= decimal(m / 10));
        assert(decimal(n).last() == digit_char(n % 10));
        assert(decimal(m).last() == digit_char(m % 10));
        lemma_decimal_injective(n / 10, m / 10);
    }
}

proof fn lemma_last_pos_suffix(a: Seq<char>, b: Seq<char>, c: char)
    requires
        forall|i: int| 0 <= i < b.len() ==> b[i] != c,
    ensures
        last_pos(a + seq![c] + b, c) == a.len(),
    decreases b.len(),
{
    if b.len() == 0 {
        assert((a + seq![c] + b).drop_last() =~= a);
        assert(a + seq![c] + b =~= a.push(c));
    } else {
        assert((a + seq![c] + b).drop_last() =~= a + seq![c] + b.drop_last());
        lemma_last_pos_suffix(a, b.drop_last(), c);
    }
}

/// Distinct (sheet key, index) pairs give distinct sprite names.
pub proof fn lemma_sprite_name_injective(k1: Seq<char>, i1: nat, k2: Seq<char>, i2: nat)
    requires
        sprite_name(k1, i1) == sprite_name(k2, i2),
    ensures
        k1 == k2,
        i1 == i2,
{
    lemma_decimal_digits(i1);
    lemma_decimal_digits(i2);
    lemma_last_pos_suffix(k1, decimal(i1), '_');
    lemma_last_pos_suffix(k2, decimal(i2), '_');
    let s = sprite_name(k1, i1);
    assert(s.take(k1.len() as int) =~= k1);
    assert(sprite_name(k2, i2).take(k2.len() as int) =~= k2);
    assert(s.skip(k1.len() as int + 1) =~= decimal(i1));
    assert(sprite_name(k2, i2).skip(k2.len() as int + 1) =~= decimal(i2));
    lemma_decimal_injective(i1, i2);
}

} // verus!
