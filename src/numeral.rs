use vstd::prelude::*;
use vstd::string::*;

verus! {

/// The numeral system of a run of characters in a heading.
#[derive(Clone, Copy, Debug, PartialEq, Eq, Structural)]
pub enum NumeralKind {
    Arabic,
    Roman,
    Ideographic,
}

/// The first numeral found in a heading: its system and its characters.
#[derive(Clone, Debug)]
pub struct NumeralMatch {
    pub kind: NumeralKind,
    pub digits: String,
}

impl View for NumeralMatch {
    type V = (NumeralKind, Seq<char>);

    open spec fn view(&self) -> (NumeralKind, Seq<char>) {
        (self.kind, self.digits@)
    }
}

/// The characters that a numeral of each system is written with.
pub open spec fn in_numeral_class(kind: NumeralKind, c: char) -> bool {
    match kind {
        NumeralKind::Arabic => '0' <= c <= '9',
        NumeralKind::Roman => c == 'I' || c == 'V' || c == 'X' || c == 'L' || c == 'C' || c == 'i'
            || c == 'v' || c == 'x' || c == 'l' || c == 'c',
        NumeralKind::Ideographic => c == '一' || c == '二' || c == '三' || c == '四' || c == '五'
            || c == '六' || c == '七' || c == '八' || c == '九' || c == '十' || c == '〇' || c == '０',
    }
}

/// A non-empty run of characters of one numeral system.
pub open spec fn is_numeral_run(kind: NumeralKind, s: Seq<char>) -> bool {
    &&& s.len() > 0
    &&& forall|i: int| 0 <= i < s.len() ==> in_numeral_class(kind, #[trigger] s[i])
}

/// The leftmost numeral in `text`: a run of Arabic digits or of Roman letters
/// between word boundaries, or a run of ideographic digits anywhere (these
/// stand between other ideographs, as in `第五章`), the systems tried in that
/// order at each position.
pub uninterp spec fn first_numeral(text: Seq<char>) -> Option<(NumeralKind, Seq<char>)>;

/// The value that xvii gives a string of Roman numeral letters, if it accepts it.
pub uninterp spec fn roman_value_of(s: Seq<char>) -> Option<u16>;

/// Relies on regex's `Regex::captures` with the pattern below: the leftmost
/// match, with the named group that took part in it. Each group matches a
/// non-empty run of its character class.
#[verifier::external_body]
fn find_numeral(text: &str) -> (r: Option<NumeralMatch>)
    ensures
        r matches Some(m) ==> (first_numeral(text@) == Some(m@) && is_numeral_run(m.kind, m.digits@)),
        r is None ==> first_numeral(text@) is None,
{
    let re = regex::Regex::new(
        r"\b(?<arabic>[0-9]+)\b|\b(?<roman>[IVXLCivxlc]+)\b|(?<kanji>[一二三四五六七八九十〇０]+)",
    ).unwrap();
    let caps = re.captures(text)?;
    let pick = |name: &str| caps.name(name).map(|m| m.as_str().to_string());
    match (pick("arabic"), pick("roman"), pick("kanji")) {
        (Some(d), _, _) => Some(NumeralMatch { kind: NumeralKind::Arabic, digits: d }),
        (_, Some(d), _) => Some(NumeralMatch { kind: NumeralKind::Roman, digits: d }),
        (_, _, Some(d)) => Some(NumeralMatch { kind: NumeralKind::Ideographic, digits: d }),
        _ => None,
    }
}

/// Relies on xvii's `FromStr for Roman` and `Roman::value`: the value of a
/// numeral it accepts, which `Roman::new` keeps within `1..=4999`. Only
/// conventional numerals reach it: on those its unit sums neither underflow
/// nor overflow.
#[verifier::external_body]
fn roman_value(s: &str) -> (r: Option<u16>)
    requires
        conventional_roman(s@),
    ensures
        r == roman_value_of(s@),
        r matches Some(v) ==> 1 <= v <= 4999,
{
    s.parse::<xvii::Roman>().ok().map(|v| v.value())
}

/// A Roman numeral letter in upper case.
pub open spec fn upper_roman(c: char) -> char {
    if c == 'i' { 'I' }
    else if c == 'v' { 'V' }
    else if c == 'x' { 'X' }
    else if c == 'l' { 'L' }
    else if c == 'c' { 'C' }
    else { c }
}

pub open spec fn all_of(t: Seq<char>, c: char) -> bool {
    forall|k: int| 0 <= k < t.len() ==> t[k] == c
}

/// One decimal place written with its letters for one, five and ten: up to
/// four ones (`IIII` included), a one before five or ten, or five followed by
/// up to four ones.
pub open spec fn digit_group(t: Seq<char>, one: char, five: char, ten: char) -> bool {
    ||| t.len() <= 4 && all_of(t, one)
    ||| t == seq![one, five]
    ||| t == seq![one, ten]
    ||| 1 <= t.len() <= 5 && t[0] == five && all_of(t.drop_first(), one)
}

/// Upper-case letters `u` split at `i` and `j` into up to four hundreds,
/// the tens and the units.
pub open spec fn roman_split(u: Seq<char>, i: int, j: int) -> bool {
    &&& 0 <= i <= 4
    &&& i <= j <= u.len()
    &&& all_of(u.subrange(0, i), 'C')
    &&& digit_group(u.subrange(i, j), 'X', 'L', 'C')
    &&& digit_group(u.subrange(j, u.len() as int), 'I', 'V', 'X')
}

/// A conventional Roman numeral over `I V X L C`, in either case: up to four
/// hundreds, then the tens, then the units (so `VX` and `IIV` are not).
pub open spec fn conventional_roman(s: Seq<char>) -> bool {
    let u = s.map_values(|c: char| upper_roman(c));
    &&& u.len() > 0
    &&& exists|i: int, j: int| #[trigger] roman_split(u, i, j)
}

fn all_same(u: &Vec<char>, from: usize, to: usize, c: char) -> (r: bool)
    requires
        from <= to <= u@.len(),
    ensures
        r == all_of(u@.subrange(from as int, to as int), c),
{
    let mut k: usize = from;
    while k < to
        invariant
            from <= k <= to <= u@.len(),
            forall|m: int| from <= m < k ==> u@[m] == c,
        decreases to - k,
    {
        if u[k] != c {
            assert(u@.subrange(from as int, to as int)[k - from] != c);
            return false;
        }
        k = k + 1;
    }
    true
}

fn group_ok(u: &Vec<char>, from: usize, to: usize, one: char, five: char, ten: char) -> (r: bool)
    requires
        from <= to <= u@.len(),
    ensures
        r == digit_group(u@.subrange(from as int, to as int), one, five, ten),
{
    let ghost t = u@.subrange(from as int, to as int);
    let n = to - from;
    if n <= 4 && all_same(u, from, to, one) {
        return true;
    }
    if n == 2 && u[from] == one && u[from + 1] == five {
        assert(t =~= seq![one, five]);
        return true;
    }
    if n == 2 && u[from] == one && u[from + 1] == ten {
        assert(t =~= seq![one, ten]);
        return true;
    }
    if 1 <= n && n <= 5 && u[from] == five {
        assert(t.drop_first() =~= u@.subrange(from + 1, to as int));
        if all_same(u, from + 1, to, one) {
            return true;
        }
    }
    assert(t != seq![one, five] && t != seq![one, ten]) by {
        if n == 2 {
            assert(t[0] == u@[from as int] && t[1] == u@[from + 1]);
        }
    }
    false
}

fn upper_char(c: char) -> (r: char)
    ensures
        r == upper_roman(c),
{
    if c == 'i' { 'I' }
    else if c == 'v' { 'V' }
    else if c == 'x' { 'X' }
    else if c == 'l' { 'L' }
    else if c == 'c' { 'C' }
    else { c }
}

/// Whether a run of letters is a conventional Roman numeral.
pub fn is_conventional_roman(s: &str) -> (r: bool)
    ensures
        r == conventional_roman(s@),
{
    let ghost us = s@.map_values(|c: char| upper_roman(c));
    let n = s.unicode_len();
    if n == 0 {
        return false;
    }
    if n > 14 {
        assert(!conventional_roman(s@)) by {
            if conventional_roman(s@) {
                let (i, j) = choose|i: int, j: int| #[trigger] roman_split(us, i, j);
                assert(us.subrange(i, j).len() <= 5);
                assert(us.subrange(j, us.len() as int).len() <= 5);
            }
        }
        return false;
    }
    let mut u: Vec<char> = Vec::new();
    let mut k: usize = 0;
    while k < n
        invariant
            n == s@.len(),
            k <= n,
            u@ =~= s@.take(k as int).map_values(|c: char| upper_roman(c)),
        decreases n - k,
    {
        u.push(upper_char(s.get_char(k)));
        k = k + 1;
    }
    assert(s@.take(n as int) =~= s@);
    assert(u@ =~= us);
    let hmax: usize = if n < 4 { n } else { 4 };
    let mut i: usize = 0;
    while i <= hmax
        invariant
            u@ == us,
            us == s@.map_values(|c: char| upper_roman(c)),
            n == us.len(),
            n > 0,
            n <= 14,
            hmax <= 4,
            hmax <= n,
            forall|i2: int, j2: int| 0 <= i2 < i ==> !#[trigger] roman_split(us, i2, j2),
        decreases hmax + 1 - i,
    {
        let hundreds = all_same(&u, 0, i, 'C');
        let mut j: usize = i;
        while j <= n
            invariant
                u@ == us,
                us == s@.map_values(|c: char| upper_roman(c)),
                n == us.len(),
                n > 0,
                n <= 14,
                i <= hmax,
                hmax <= 4,
                hmax <= n,
                i <= j,
                hundreds == all_of(us.subrange(0, i as int), 'C'),
                forall|i2: int, j2: int| 0 <= i2 < i ==> !#[trigger] roman_split(us, i2, j2),
                forall|j2: int| j2 < j ==> !#[trigger] roman_split(us, i as int, j2),
            decreases n + 1 - j,
        {
            if hundreds && group_ok(&u, i, j, 'X', 'L', 'C') && group_ok(&u, j, n, 'I', 'V', 'X') {
                assert(roman_split(us, i as int, j as int));
                return true;
            }
            j = j + 1;
        }
        i = i + 1;
    }
    assert(!conventional_roman(s@)) by {
        if conventional_roman(s@) {
            let (i2, j2) = choose|i: int, j: int| #[trigger] roman_split(us, i, j);
            assert(roman_split(us, i2, j2));
        }
    }
    false
}

/// The digit that a character stands for in a positional (Arabic or
/// ideographic) numeral; `十` stands for none, as positional composition is
/// not supported.
pub open spec fn digit_spec(kind: NumeralKind, c: char) -> Option<int> {
    match kind {
        NumeralKind::Arabic => if '0' <= c <= '9' { Some(c as int - '0' as int) } else { None },
        NumeralKind::Roman => None,
        NumeralKind::Ideographic => if c == '一' { Some(1) }
            else if c == '二' { Some(2) }
            else if c == '三' { Some(3) }
            else if c == '四' { Some(4) }
            else if c == '五' { Some(5) }
            else if c == '六' { Some(6) }
            else if c == '七' { Some(7) }
            else if c == '八' { Some(8) }
            else if c == '九' { Some(9) }
            else if c == '〇' || c == '０' { Some(0) }
            else { None },
    }
}

/// The decimal number that a run of digits spells, each character replaced
/// by its digit; `None` when a character is no digit of the system.
pub open spec fn positional_value(kind: NumeralKind, s: Seq<char>) -> Option<int>
    decreases s.len(),
{
    if s.len() == 0 {
        Some(0)
    } else {
        match (positional_value(kind, s.drop_last()), digit_spec(kind, s.last())) {
            (Some(v), Some(d)) => Some(v * 10 + d),
            _ => None,
        }
    }
}

/// The chapter number that a numeral stands for, when it fits an `i32`.
pub open spec fn numeral_value(kind: NumeralKind, s: Seq<char>) -> Option<i32> {
    match kind {
        NumeralKind::Roman => if conventional_roman(s) {
            match roman_value_of(s) {
                Some(v) => Some(v as i32),
                None => None,
            }
        } else {
            None
        },
        _ => match positional_value(kind, s) {
            Some(v) => if v <= i32::MAX { Some(v as i32) } else { None },
            None => None,
        },
    }
}

/// The chapter number in a heading: that of its first numeral, if any.
pub open spec fn chapter_number_spec(text: Seq<char>) -> Option<i32> {
    match first_numeral(text) {
        Some((kind, s)) => numeral_value(kind, s),
        None => None,
    }
}

fn digit_of(kind: NumeralKind, c: char) -> (r: Option<u32>)
    ensures
        r matches Some(d) ==> (d <= 9 && digit_spec(kind, c) == Some(d as int)),
        r is None ==> digit_spec(kind, c) is None,
{
    match kind {
        NumeralKind::Arabic => if '0' <= c && c <= '9' { Some(c as u32 - '0' as u32) } else { None },
        NumeralKind::Roman => None,
        NumeralKind::Ideographic => if c == '一' { Some(1) }
            else if c == '二' { Some(2) }
            else if c == '三' { Some(3) }
            else if c == '四' { Some(4) }
            else if c == '五' { Some(5) }
            else if c == '六' { Some(6) }
            else if c == '七' { Some(7) }
            else if c == '八' { Some(8) }
            else if c == '九' { Some(9) }
            else if c == '〇' || c == '０' { Some(0) }
            else { None },
    }
}

/// The value of a positional numeral, `None` when it has a character that is
/// no digit of its system or exceeds `i32::MAX`.
fn positional_number(kind: NumeralKind, s: &str) -> (r: Option<i32>)
    requires
        kind != NumeralKind::Roman,
    ensures
        r == numeral_value(kind, s@),
{
    let n = s.unicode_len();
    let mut v: i64 = 0;
    let mut bad = false;
    let mut big = false;
    let mut i: usize = 0;
    while i < n
        invariant
            n == s@.len(),
            i <= n,
            bad ==> positional_value(kind, s@.take(i as int)) is None,
            !bad && big ==> (positional_value(kind, s@.take(i as int)) matches Some(x) && x > i32::MAX),
            !bad && !big ==> positional_value(kind, s@.take(i as int)) == Some(v as int) && 0 <= v <= i32::MAX,
        decreases n - i,
    {
        let c = s.get_char(i);
        assert(s@.take(i + 1).drop_last() =~= s@.take(i as int));
        assert(s@.take(i + 1).last() == c);
        match digit_of(kind, c) {
            None => {
                bad = true;
            },
            Some(d) => {
                if !bad && !big {
                    v = v * 10 + d as i64;
                    if v > i32::MAX as i64 {
                        big = true;
                    }
                }
            },
        }
        i = i + 1;
    }
    assert(s@.take(n as int) =~= s@);
    if bad || big {
        None
    } else {
        Some(v as i32)
    }
}

/// The chapter number that a numeral stands for.
pub fn decode_numeral(m: &NumeralMatch) -> (r: Option<i32>)
    ensures
        r == numeral_value(m.kind, m.digits@),
{
    match m.kind {
        NumeralKind::Roman => if is_conventional_roman(m.digits.as_str()) {
            match roman_value(m.digits.as_str()) {
                Some(v) => Some(v as i32),
                None => None,
            }
        } else {
            None
        },
        _ => positional_number(m.kind, m.digits.as_str()),
    }
}

/// The chapter number in a heading (`"Chapter 12"`, `"Chapter XII"`,
/// `"第五章"`), or `None` where it has no numeral (`"Preface"`).
pub fn get_chapter_number(text: &str) -> (r: Option<i32>)
    ensures
        r == chapter_number_spec(text@),
{
    match find_numeral(text) {
        Some(m) => decode_numeral(&m),
        None => None,
    }
}

} // verus!
