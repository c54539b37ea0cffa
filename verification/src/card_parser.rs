//! Reading the printed characteristics of cards from the text fields of the
//! card database: comma separated lists, mana costs such as "{2}{G}{G}", and
//! printed power and toughness.
use vstd::prelude::*;

verus! {

/// Characters that `str::trim` removes: those with the Unicode `White_Space`
/// property.
pub open spec fn is_whitespace(c: char) -> bool {
    ||| '\t' <= c <= '\r'
    ||| c == ' '
    ||| c == '\u{85}'
    ||| c == '\u{a0}'
    ||| c == '\u{1680}'
    ||| '\u{2000}' <= c <= '\u{200a}'
    ||| c == '\u{2028}'
    ||| c == '\u{2029}'
    ||| c == '\u{202f}'
    ||| c == '\u{205f}'
    ||| c == '\u{3000}'
}

/// Number of whitespace characters at the start of `s`.
pub open spec fn leading_whitespace(s: Seq<char>) -> nat
    decreases s.len(),
{
    if s.len() > 0 && is_whitespace(s[0]) {
        1 + leading_whitespace(s.drop_first())
    } else {
        0
    }
}

/// Number of whitespace characters at the end of `s`.
pub open spec fn trailing_whitespace(s: Seq<char>) -> nat
    decreases s.len(),
{
    if s.len() > 0 && is_whitespace(s.last()) {
        1 + trailing_whitespace(s.drop_last())
    } else {
        0
    }
}

/// `s` without leading and trailing whitespace.
pub open spec fn trim(s: Seq<char>) -> Seq<char> {
    let t = s.skip(leading_whitespace(s) as int);
    t.take(t.len() - trailing_whitespace(t))
}

/// Position of the first comma of `s`, or its length when it has none.
pub open spec fn comma_index(s: Seq<char>) -> nat
    decreases s.len(),
{
    if s.len() == 0 {
        0
    } else if s[0] == ',' {
        0
    } else {
        1 + comma_index(s.drop_first())
    }
}

/// The comma separated fields of `s`, trimmed, leaving out the empty ones.
pub open spec fn split_fields(s: Seq<char>) -> Seq<Seq<char>>
    decreases s.len(),
{
    let i = comma_index(s);
    let field = trim(s.take(i as int));
    let head = if field.len() > 0 {
        seq![field]
    } else {
        Seq::empty()
    };
    if i < s.len() {
        head + split_fields(s.skip(i + 1 as int))
    } else {
        head
    }
}

/// The fields of an optional comma separated list; none when it is absent.
pub open spec fn spec_split(s: Option<Seq<char>>) -> Seq<Seq<char>> {
    match s {
        None => Seq::empty(),
        Some(t) => split_fields(t),
    }
}

/// The contents of a list of string slices.
pub open spec fn str_views(parts: Seq<&str>) -> Seq<Seq<char>> {
    parts.map_values(|p: &str| p@)
}

proof fn lemma_leading_whitespace(s: Seq<char>, k: int)
    requires
        0 <= k <= s.len(),
        forall|i: int| 0 <= i < k ==> is_whitespace(#[trigger] s[i]),
        k == s.len() || !is_whitespace(s[k]),
    ensures
        leading_whitespace(s) == k,
    decreases k,
{
    if k > 0 {
        assert(is_whitespace(s[0]));
        let t = s.drop_first();
        assert forall|i: int| 0 <= i < k - 1 implies is_whitespace(#[trigger] t[i]) by {
            assert(t[i] == s[i + 1]);
        }
        if k - 1 < t.len() {
            assert(t[k - 1] == s[k]);
        }
        lemma_leading_whitespace(t, k - 1);
    }
}

proof fn lemma_trailing_whitespace(s: Seq<char>, k: int)
    requires
        0 <= k <= s.len(),
        forall|i: int| s.len() - k <= i < s.len() ==> is_whitespace(#[trigger] s[i]),
        k == s.len() || !is_whitespace(s[s.len() - 1 - k]),
    ensures
        trailing_whitespace(s) == k,
    decreases k,
{
    if k > 0 {
        assert(is_whitespace(s[s.len() - 1]));
        let t = s.drop_last();
        assert forall|i: int| t.len() - (k - 1) <= i < t.len() implies is_whitespace(
            #[trigger] t[i],
        ) by {
            assert(t[i] == s[i]);
        }
        if k - 1 < t.len() {
            assert(t[t.len() - 1 - (k - 1)] == s[s.len() - 1 - k]);
        }
        lemma_trailing_whitespace(t, k - 1);
    }
}

proof fn lemma_comma_index(s: Seq<char>, k: int)
    requires
        0 <= k <= s.len(),
        forall|i: int| 0 <= i < k ==> #[trigger] s[i] != ',',
        k == s.len() || s[k] == ',',
    ensures
        comma_index(s) == k,
    decreases k,
{
    if k > 0 {
        let t = s.drop_first();
        assert(s[0] != ',');
        assert forall|i: int| 0 <= i < k - 1 implies #[trigger] t[i] != ',' by {
            assert(t[i] == s[i + 1]);
        }
        if k - 1 < t.len() {
            assert(t[k - 1] == s[k]);
        }
        lemma_comma_index(t, k - 1);
    }
}

/// Number of commas in `s`.
pub open spec fn comma_count(s: Seq<char>) -> nat
    decreases s.len(),
{
    if s.len() == 0 {
        0
    } else {
        (if s[0] == ',' {
            1nat
        } else {
            0
        }) + comma_count(s.drop_first())
    }
}

/// The first comma is where `comma_index` says, and there are at least one
/// more commas in `s` than after it.
proof fn lemma_comma_index_facts(s: Seq<char>)
    ensures
        comma_index(s) <= s.len(),
        forall|j: int| 0 <= j < comma_index(s) ==> #[trigger] s[j] != ',',
        comma_index(s) < s.len() ==> comma_count(s) >= 1 + comma_count(s.skip(comma_index(s) + 1int)),
    decreases s.len(),
{
    if s.len() > 0 {
        let t = s.drop_first();
        lemma_comma_index_facts(t);
        if s[0] == ',' {
            assert(s.skip(1) =~= t);
        } else {
            assert forall|j: int| 0 <= j < comma_index(s) implies #[trigger] s[j] != ',' by {
                if j > 0 {
                    assert(s[j] == t[j - 1]);
                }
            }
            if comma_index(s) < s.len() {
                assert(s.skip(comma_index(s) + 1int) =~= t.skip(comma_index(t) + 1int));
            }
        }
    }
}

/// The whitespace counted at the start of `s` is followed by a character
/// that is not whitespace, if any.
proof fn lemma_leading_stop(s: Seq<char>)
    ensures
        leading_whitespace(s) <= s.len(),
        leading_whitespace(s) < s.len() ==> !is_whitespace(s[leading_whitespace(s) as int]),
    decreases s.len(),
{
    if s.len() > 0 && is_whitespace(s[0]) {
        lemma_leading_stop(s.drop_first());
        if leading_whitespace(s) < s.len() {
            assert(s[leading_whitespace(s) as int] == s.drop_first()[leading_whitespace(s.drop_first()) as int]);
        }
    }
}

/// The whitespace counted at the end of `s` is preceded by a character that
/// is not whitespace, if any.
proof fn lemma_trailing_stop(s: Seq<char>)
    ensures
        trailing_whitespace(s) <= s.len(),
        trailing_whitespace(s) < s.len() ==> !is_whitespace(s[s.len() - 1 - trailing_whitespace(s)]),
    decreases s.len(),
{
    if s.len() > 0 && is_whitespace(s.last()) {
        lemma_trailing_stop(s.drop_last());
        if trailing_whitespace(s) < s.len() {
            let t = s.drop_last();
            assert(s[s.len() - 1 - trailing_whitespace(s)] == t[t.len() - 1 - trailing_whitespace(t)]);
        }
    }
}

/// A trimmed field holds only characters of the field, and does not start
/// or end with whitespace.
proof fn lemma_trim_facts(s: Seq<char>)
    ensures
        forall|k: int| 0 <= k < trim(s).len() ==> exists|m: int| 0 <= m < s.len() && #[trigger] trim(s)[k] == s[m],
        trim(s).len() > 0 ==> !is_whitespace(trim(s)[0]) && !is_whitespace(trim(s).last()),
{
    lemma_leading_stop(s);
    let l = leading_whitespace(s);
    let t = s.skip(l as int);
    lemma_trailing_stop(t);
    assert forall|k: int| 0 <= k < trim(s).len() implies exists|m: int| 0 <= m < s.len() && #[trigger] trim(s)[k]
        == s[m] by {
        assert(trim(s)[k] == s[l + k]);
    }
    if trim(s).len() > 0 {
        assert(trim(s)[0] == s[l as int]);
        assert(trim(s).last() == t[t.len() - 1 - trailing_whitespace(t)]);
    }
}

/// The fields of a comma separated list are non-empty, hold no comma, and
/// neither start nor end with whitespace; there is at most one more field
/// than there are commas.
pub proof fn law_split_fields(s: Seq<char>)
    ensures
        forall|i: int|
            0 <= i < split_fields(s).len() ==> {
                let f = #[trigger] split_fields(s)[i];
                &&& f.len() > 0
                &&& !f.contains(',')
                &&& !is_whitespace(f[0])
                &&& !is_whitespace(f.last())
            },
        split_fields(s).len() <= comma_count(s) + 1,
    decreases s.len(),
{
    let i = comma_index(s);
    lemma_comma_index_facts(s);
    let raw = s.take(i as int);
    let field = trim(raw);
    lemma_trim_facts(raw);
    assert(!field.contains(',')) by {
        assert forall|k: int| 0 <= k < field.len() implies field[k] != ',' by {
            let m = choose|m: int| 0 <= m < raw.len() && #[trigger] field[k] == raw[m];
            assert(raw[m] == s[m]);
        }
    }
    let head = if field.len() > 0 {
        seq![field]
    } else {
        Seq::<Seq<char>>::empty()
    };
    if i < s.len() {
        let rest = s.skip(i + 1 as int);
        law_split_fields(rest);
        let r = split_fields(rest);
        assert(split_fields(s) == head + r);
        assert forall|j: int| 0 <= j < split_fields(s).len() implies {
            let f = #[trigger] split_fields(s)[j];
            &&& f.len() > 0
            &&& !f.contains(',')
            &&& !is_whitespace(f[0])
            &&& !is_whitespace(f.last())
        } by {
            if j < head.len() {
                assert(split_fields(s)[j] == field);
            } else {
                assert(split_fields(s)[j] == r[j - head.len()]);
            }
        }
    } else {
        assert(split_fields(s) == head);
        assert forall|j: int| 0 <= j < split_fields(s).len() implies {
            let f = #[trigger] split_fields(s)[j];
            &&& f.len() > 0
            &&& !f.contains(',')
            &&& !is_whitespace(f[0])
            &&& !is_whitespace(f.last())
        } by {
            assert(split_fields(s)[j] == field);
        }
    }
}

/// Whether `c` is whitespace.
fn is_whitespace_char(c: char) -> (r: bool)
    ensures
        r == is_whitespace(c),
{
    ('\t' <= c && c <= '\r') || c == ' ' || c == '\u{85}' || c == '\u{a0}' || c == '\u{1680}'
        || ('\u{2000}' <= c && c <= '\u{200a}') || c == '\u{2028}' || c == '\u{2029}' || c
        == '\u{202f}' || c == '\u{205f}' || c == '\u{3000}'
}

/// The trimmed, non-empty, comma separated fields of `s`.
fn split_str(s: &str) -> (parts: Vec<&str>)
    ensures
        str_views(parts@) == split_fields(s@),
{
    let n = s.unicode_len();
    let mut parts: Vec<&str> = Vec::new();
    let mut start: usize = 0;
    let mut done = false;
    proof {
        assert(s@.skip(0) =~= s@);
        assert(str_views(parts@) + split_fields(s@) =~= split_fields(s@));
    }
    while !done
        invariant
            n == s@.len(),
            start <= n,
            done ==> str_views(parts@) == split_fields(s@),
            !done ==> str_views(parts@) + split_fields(s@.skip(start as int)) == split_fields(
                s@,
            ),
        decreases n - start + (if done {
            0int
        } else {
            1int
        }),
    {
        let ghost rest = s@.skip(start as int);
        let mut j = start;
        while j < n && s.get_char(j) != ','
            invariant
                n == s@.len(),
                start <= j <= n,
                forall|i: int| start <= i < j ==> #[trigger] s@[i] != ',',
            decreases n - j,
        {
            j = j + 1;
        }
        let mut lo = start;
        while lo < j && is_whitespace_char(s.get_char(lo))
            invariant
                n == s@.len(),
                start <= lo <= j <= n,
                forall|i: int| start <= i < lo ==> is_whitespace(#[trigger] s@[i]),
            decreases j - lo,
        {
            lo = lo + 1;
        }
        let mut hi = j;
        while hi > lo && is_whitespace_char(s.get_char(hi - 1))
            invariant
                n == s@.len(),
                start <= lo <= hi <= j <= n,
                forall|i: int| hi <= i < j ==> is_whitespace(#[trigger] s@[i]),
            decreases hi - lo,
        {
            hi = hi - 1;
        }
        proof {
            assert forall|i: int| 0 <= i < j - start implies #[trigger] rest[i] != ',' by {
                assert(rest[i] == s@[start + i]);
            }
            if j < n {
                assert(rest[j - start] == s@[j as int]);
            }
            lemma_comma_index(rest, j - start);
            let piece = rest.take(j - start);
            assert forall|i: int| 0 <= i < lo - start implies is_whitespace(#[trigger] piece[i]) by {
                assert(piece[i] == s@[start + i]);
            }
            if lo < j {
                assert(piece[lo - start] == s@[lo as int]);
            }
            lemma_leading_whitespace(piece, lo - start);
            let t = piece.skip(lo - start);
            assert(t =~= s@.subrange(lo as int, j as int));
            assert forall|i: int| t.len() - (j - hi) <= i < t.len() implies is_whitespace(
                #[trigger] t[i],
            ) by {
                assert(t[i] == s@[lo + i]);
            }
            if j - hi < t.len() {
                assert(t[t.len() - 1 - (j - hi)] == s@[hi - 1]);
            }
            lemma_trailing_whitespace(t, j - hi);
            assert(trim(piece) =~= s@.subrange(lo as int, hi as int));
        }
        let ghost before = parts@;
        if lo < hi {
            let field = s.substring_char(lo, hi);
            parts.push(field);
            proof {
                assert(str_views(parts@) =~= str_views(before) + seq![field@]);
            }
        } else {
            proof {
                assert(str_views(parts@) =~= str_views(before) + Seq::<Seq<char>>::empty());
            }
        }
        if j < n {
            proof {
                assert(rest.skip(j - start + 1) =~= s@.skip(j + 1));
                assert(str_views(parts@) + split_fields(s@.skip(j + 1)) =~= str_views(before)
                    + split_fields(rest));
            }
            start = j + 1;
        } else {
            proof {
                assert(str_views(parts@) =~= str_views(before) + split_fields(rest));
            }
            done = true;
        }
    }
    parts
}

/// The trimmed, non-empty fields of an optional comma separated list.
pub fn split(s: &Option<String>) -> (parts: Vec<&str>)
    ensures
        str_views(parts@) == spec_split(
            match s {
                Some(t) => Some(t@),
                None => None,
            },
        ),
{
    match s {
        None => Vec::new(),
        Some(t) => split_str(t.as_str()),
    }
}

} // verus!

verus! {

/// Colors of mana.
#[derive(Debug, Clone, Copy, PartialEq, Eq, Hash, Structural)]
pub enum ManaColor {
    White,
    Blue,
    Black,
    Red,
    Green,
}

/// One symbol of a mana cost: one mana of a color, or one generic mana.
#[derive(Debug, Clone, Copy, PartialEq, Eq, Hash, Structural)]
pub enum ManaCostItem {
    Colored(ManaColor),
    Generic,
}

/// The mana symbols printed on a card, in order.
#[derive(Debug, Clone)]
pub struct ManaCost {
    pub items: Vec<ManaCostItem>,
}

/// A printed power value.
#[derive(Debug, Clone, Copy, PartialEq, Eq, Structural)]
pub enum PrintedPower {
    Number(i64),
}

/// A printed toughness value.
#[derive(Debug, Clone, Copy, PartialEq, Eq, Structural)]
pub enum PrintedToughness {
    Number(i64),
}

/// Whether `c` is an ASCII decimal digit.
pub open spec fn is_digit(c: char) -> bool {
    '0' <= c <= '9'
}

/// Value of a sequence of decimal digits.
pub open spec fn digits_value(s: Seq<char>) -> nat
    decreases s.len(),
{
    if s.len() == 0 {
        0
    } else {
        digits_value(s.drop_last()) * 10 + (s.last() as nat - '0' as nat) as nat
    }
}

/// Whether `s` is a non-empty sequence of decimal digits.
pub open spec fn all_digits(s: Seq<char>) -> bool {
    s.len() > 0 && forall|i: int| 0 <= i < s.len() ==> is_digit(#[trigger] s[i])
}

/// The number written by an optional `+` followed by digits, as `usize`
/// parsing reads it; `None` for anything else or a value above `usize::MAX`.
pub open spec fn parsed_usize(s: Seq<char>) -> Option<usize> {
    let digits = if s.len() > 0 && s[0] == '+' {
        s.drop_first()
    } else {
        s
    };
    if all_digits(digits) && digits_value(digits) <= usize::MAX {
        Some(digits_value(digits) as usize)
    } else {
        None
    }
}

/// The number written by an optional `+` or `-` followed by digits, as
/// `i64` parsing reads it; `None` for anything else or a value out of range.
pub open spec fn parsed_i64(s: Seq<char>) -> Option<i64> {
    let negative = s.len() > 0 && s[0] == '-';
    let digits = if s.len() > 0 && (s[0] == '+' || s[0] == '-') {
        s.drop_first()
    } else {
        s
    };
    let value: int = if negative {
        -(digits_value(digits) as int)
    } else {
        digits_value(digits) as int
    };
    if all_digits(digits) && i64::MIN <= value <= i64::MAX {
        Some(value as i64)
    } else {
        None
    }
}

/// `str::parse::<usize>`: per its documentation, an optional `+` sign
/// followed by decimal digits, failing on anything else and on overflow.
#[verifier::external_body]
fn parse_usize(s: &str) -> (r: Option<usize>)
    ensures
        r == parsed_usize(s@),
{
    s.parse::<usize>().ok()
}

/// `str::parse::<i64>`: per its documentation, an optional `+` or `-` sign
/// followed by decimal digits, failing on anything else and out of range.
#[verifier::external_body]
fn parse_i64(s: &str) -> (r: Option<i64>)
    ensures
        r == parsed_i64(s@),
{
    s.parse::<i64>().ok()
}

/// The mana cost items one symbol stands for: a colored mana for W, U, B, R
/// and G, a number of generic mana for a number; `None` for any other symbol.
pub open spec fn spec_mana_item(symbol: Seq<char>) -> Option<Seq<ManaCostItem>> {
    if symbol == seq!['W'] {
        Some(seq![ManaCostItem::Colored(ManaColor::White)])
    } else if symbol == seq!['U'] {
        Some(seq![ManaCostItem::Colored(ManaColor::Blue)])
    } else if symbol == seq!['B'] {
        Some(seq![ManaCostItem::Colored(ManaColor::Black)])
    } else if symbol == seq!['R'] {
        Some(seq![ManaCostItem::Colored(ManaColor::Red)])
    } else if symbol == seq!['G'] {
        Some(seq![ManaCostItem::Colored(ManaColor::Green)])
    } else {
        match parsed_usize(symbol) {
            Some(n) => Some(Seq::new(n as nat, |i: int| ManaCostItem::Generic)),
            None => None,
        }
    }
}

/// The mana cost items of one symbol of a mana cost.
pub fn to_mana_item(symbol: &str) -> (items: Vec<ManaCostItem>)
    requires
        spec_mana_item(symbol@) is Some,
    ensures
        items@ == spec_mana_item(symbol@)->0,
{
    if symbol.unicode_len() == 1 {
        let c = symbol.get_char(0);
        proof {
            assert(symbol@ =~= seq![c]);
        }
        if c == 'W' {
            return vec![ManaCostItem::Colored(ManaColor::White)];
        } else if c == 'U' {
            return vec![ManaCostItem::Colored(ManaColor::Blue)];
        } else if c == 'B' {
            return vec![ManaCostItem::Colored(ManaColor::Black)];
        } else if c == 'R' {
            return vec![ManaCostItem::Colored(ManaColor::Red)];
        } else if c == 'G' {
            return vec![ManaCostItem::Colored(ManaColor::Green)];
        }
    }
    let value = match parse_usize(symbol) {
        Some(v) => v,
        None => {
            return Vec::new();
        },
    };
    let mut items: Vec<ManaCostItem> = Vec::new();
    let mut k: usize = 0;
    while k < value
        invariant
            k <= value,
            items@ =~= Seq::new(k as nat, |i: int| ManaCostItem::Generic),
        decreases value - k,
    {
        items.push(ManaCostItem::Generic);
        k = k + 1;
    }
    items
}

/// Position in `t` of the first `}`, provided no line break comes before it.
pub open spec fn closing_brace(t: Seq<char>) -> Option<nat>
    decreases t.len(),
{
    if t.len() == 0 {
        None
    } else if t[0] == '}' {
        Some(0)
    } else if t[0] == '\n' {
        None
    } else {
        match closing_brace(t.drop_first()) {
            Some(k) => Some(k + 1),
            None => None,
        }
    }
}

/// The closing brace found lies inside the text, after no other closing brace or line break.
pub proof fn lemma_closing_brace_in_bounds(t: Seq<char>)
    ensures
        closing_brace(t) matches Some(k) ==> k < t.len() && t[k as int] == '}',
        closing_brace(t) matches Some(k) ==> forall|i: int|
            0 <= i < k ==> #[trigger] t[i] != '}' && t[i] != '\n',
    decreases t.len(),
{
    if t.len() > 0 && t[0] != '}' && t[0] != '\n' {
        lemma_closing_brace_in_bounds(t.drop_first());
        if let Some(k) = closing_brace(t) {
            assert forall|i: int| 0 <= i < k implies #[trigger] t[i] != '}' && t[i] != '\n' by {
                if i > 0 {
                    assert(t[i] == t.drop_first()[i - 1]);
                }
            }
        }
    }
}

/// The symbols of a mana cost such as "{2}{G}{G}": the text between each `{`
/// and the first `}` after it on the same line, scanning left to right.
pub open spec fn mana_symbols(s: Seq<char>) -> Seq<Seq<char>>
    decreases s.len(),
{
    if s.len() == 0 {
        Seq::empty()
    } else if s[0] == '{' && closing_brace(s.drop_first()) is Some {
        let k = closing_brace(s.drop_first())->0;
        proof {
            lemma_closing_brace_in_bounds(s.drop_first());
        }
        seq![s.subrange(1, k + 1 as int)] + mana_symbols(s.skip(k + 2 as int))
    } else {
        mana_symbols(s.drop_first())
    }
}

/// The mana cost items of a sequence of symbols, in order.
pub open spec fn mana_items(symbols: Seq<Seq<char>>) -> Seq<ManaCostItem>
    decreases symbols.len(),
{
    if symbols.len() == 0 {
        Seq::empty()
    } else {
        spec_mana_item(symbols[0])->0 + mana_items(symbols.drop_first())
    }
}

/// Whether every symbol stands for mana.
pub open spec fn all_symbols_known(symbols: Seq<Seq<char>>) -> bool {
    forall|i: int| 0 <= i < symbols.len() ==> spec_mana_item(#[trigger] symbols[i]) is Some
}

/// The mana cost written in `cost`; empty when there is none.
pub open spec fn spec_mana_cost(cost: Option<Seq<char>>) -> Seq<ManaCostItem> {
    match cost {
        None => Seq::empty(),
        Some(c) => mana_items(mana_symbols(c)),
    }
}

/// The symbols between braces in `s`.
fn brace_symbols(s: &str) -> (symbols: Vec<&str>)
    ensures
        str_views(symbols@) == mana_symbols(s@),
{
    let n = s.unicode_len();
    let mut symbols: Vec<&str> = Vec::new();
    let mut i: usize = 0;
    proof {
        assert(s@.skip(0) =~= s@);
        assert(str_views(symbols@) + mana_symbols(s@) =~= mana_symbols(s@));
    }
    while i < n
        invariant
            n == s@.len(),
            i <= n,
            str_views(symbols@) + mana_symbols(s@.skip(i as int)) == mana_symbols(s@),
        decreases n - i,
    {
        let ghost rest = s@.skip(i as int);
        let ghost before = symbols@;
        if s.get_char(i) == '{' {
            let mut j = i + 1;
            while j < n && s.get_char(j) != '}' && s.get_char(j) != '\n'
                invariant
                    n == s@.len(),
                    i < j <= n,
                    forall|k: int| i < k < j ==> #[trigger] s@[k] != '}' && s@[k] != '\n',
                decreases n - j,
            {
                j = j + 1;
            }
            let ghost t = rest.drop_first();
            proof {
                lemma_closing_brace_in_bounds(t);
                assert(t =~= s@.skip(i + 1));
            }
            if j < n && s.get_char(j) == '}' {
                proof {
                    lemma_closing_brace_index(t, j - i - 1);
                    assert(rest.subrange(1, j - i) =~= s@.subrange(i + 1, j as int));
                    assert(rest.skip(j - i + 1) =~= s@.skip(j + 1));
                }
                let symbol = s.substring_char(i + 1, j);
                symbols.push(symbol);
                proof {
                    assert(str_views(symbols@) =~= str_views(before) + seq![symbol@]);
                }
                i = j + 1;
            } else {
                proof {
                    lemma_no_closing_brace(t, j - i - 1);
                    assert(rest.drop_first() =~= s@.skip(i + 1));
                }
                i = i + 1;
            }
        } else {
            proof {
                assert(rest.drop_first() =~= s@.skip(i + 1));
            }
            i = i + 1;
        }
    }
    proof {
        assert(s@.skip(n as int) =~= Seq::<char>::empty());
        assert(str_views(symbols@) =~= str_views(symbols@) + mana_symbols(s@.skip(n as int)));
    }
    symbols
}

proof fn lemma_closing_brace_index(t: Seq<char>, k: int)
    requires
        0 <= k < t.len(),
        t[k] == '}',
        forall|i: int| 0 <= i < k ==> #[trigger] t[i] != '}' && t[i] != '\n',
    ensures
        closing_brace(t) == Some(k as nat),
    decreases k,
{
    if k > 0 {
        let u = t.drop_first();
        assert forall|i: int| 0 <= i < k - 1 implies #[trigger] u[i] != '}' && u[i] != '\n' by {
            assert(u[i] == t[i + 1]);
        }
        assert(t[0] != '}' && t[0] != '\n');
        lemma_closing_brace_index(u, k - 1);
    }
}

proof fn lemma_no_closing_brace(t: Seq<char>, k: int)
    requires
        0 <= k <= t.len(),
        k == t.len() || t[k] == '\n',
        forall|i: int| 0 <= i < k ==> #[trigger] t[i] != '}' && t[i] != '\n',
    ensures
        closing_brace(t) is None,
    decreases k,
{
    if k > 0 {
        let u = t.drop_first();
        assert forall|i: int| 0 <= i < k - 1 implies #[trigger] u[i] != '}' && u[i] != '\n' by {
            assert(u[i] == t[i + 1]);
        }
        if k < t.len() {
            assert(u[k - 1] == t[k]);
        }
        assert(t[0] != '}' && t[0] != '\n');
        lemma_no_closing_brace(u, k - 1);
    }
}

/// The mana cost written in `cost`, e.g. "{2}{G}{G}"; empty when absent.
pub fn mana_cost(cost: &Option<String>) -> (result: ManaCost)
    requires
        cost matches Some(c) ==> all_symbols_known(mana_symbols(c@)),
    ensures
        result.items@ == spec_mana_cost(
            match cost {
                Some(c) => Some(c@),
                None => None,
            },
        ),
{
    let text = match cost {
        None => {
            return ManaCost { items: Vec::new() };
        },
        Some(c) => c.as_str(),
    };
    let symbols = brace_symbols(text);
    let ghost all = str_views(symbols@);
    let mut items: Vec<ManaCostItem> = Vec::new();
    let mut k: usize = 0;
    proof {
        assert(all.skip(0) =~= all);
        assert(items@ + mana_items(all) =~= mana_items(all));
    }
    while k < symbols.len()
        invariant
            all == str_views(symbols@),
            all == mana_symbols(text@),
            all_symbols_known(all),
            k <= symbols.len(),
            items@ + mana_items(all.skip(k as int)) == mana_items(all),
        decreases symbols.len() - k,
    {
        let ghost rest = all.skip(k as int);
        assert(rest[0] == symbols@[k as int]@);
        assert(spec_mana_item(all[k as int]) is Some);
        let mut next = to_mana_item(symbols[k]);
        let ghost before = items@;
        items.append(&mut next);
        proof {
            assert(rest.drop_first() =~= all.skip(k + 1));
            assert(items@ + mana_items(all.skip(k + 1)) =~= before + mana_items(rest));
        }
        k = k + 1;
    }
    proof {
        assert(all.skip(symbols.len() as int) =~= Seq::<Seq<char>>::empty());
        assert(items@ =~= items@ + mana_items(all.skip(symbols.len() as int)));
    }
    ManaCost { items }
}

/// The printed power written in `power`, which must be a whole number.
pub fn power(printed: Option<&String>) -> (result: Option<PrintedPower>)
    requires
        printed matches Some(p) ==> parsed_i64(p@) is Some,
    ensures
        result == (match printed {
            Some(p) => Some(PrintedPower::Number(parsed_i64(p@)->0)),
            None => None,
        }),
{
    match printed {
        None => None,
        Some(p) => match parse_i64(p.as_str()) {
            Some(value) => Some(PrintedPower::Number(value)),
            None => None,
        },
    }
}

/// The printed toughness written in `toughness`, which must be a whole number.
pub fn toughness(printed: Option<&String>) -> (result: Option<PrintedToughness>)
    requires
        printed matches Some(t) ==> parsed_i64(t@) is Some,
    ensures
        result == (match printed {
            Some(t) => Some(PrintedToughness::Number(parsed_i64(t@)->0)),
            None => None,
        }),
{
    match printed {
        None => None,
        Some(t) => match parse_i64(t.as_str()) {
            Some(value) => Some(PrintedToughness::Number(value)),
            None => None,
        },
    }
}

} // verus!
