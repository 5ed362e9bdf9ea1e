//! Decimal notation of integers, and joining and padding of text.
use vstd::prelude::*;

verus! {

/// The character of the decimal digit `d`.
pub open spec fn digit_char(d: int) -> char {
    (48 + d) as char
}

/// The decimal notation of `n`, without leading zeros.
pub open spec fn decimal(n: nat) -> Seq<char>
    decreases n,
{
    if n < 10 {
        seq![digit_char(n as int)]
    } else {
        decimal(n / 10).push(digit_char((n % 10) as int))
    }
}

/// The one-character text of the decimal digit `d`.
fn digit_str(d: u64) -> (s: &'static str)
    requires
        d < 10,
    ensures
        s@ == seq![digit_char(d as int)],
{
    proof {
        reveal_strlit("0");
        reveal_strlit("1");
        reveal_strlit("2");
        reveal_strlit("3");
        reveal_strlit("4");
        reveal_strlit("5");
        reveal_strlit("6");
        reveal_strlit("7");
        reveal_strlit("8");
        reveal_strlit("9");
    }
    match d {
        0 => "0",
        1 => "1",
        2 => "2",
        3 => "3",
        4 => "4",
        5 => "5",
        6 => "6",
        7 => "7",
        8 => "8",
        _ => "9",
    }
}

/// Writes `n` in decimal.
pub fn decimal_string(n: u64) -> (res: String)
    ensures
        res@ == decimal(n as nat),
    decreases n,
{
    if n < 10 {
        String::from_str(digit_str(n))
    } else {
        let mut s = decimal_string(n / 10);
        s.append(digit_str(n % 10));
        s
    }
}

/// The texts of a sequence of strings.
pub open spec fn texts(v: Seq<String>) -> Seq<Seq<char>> {
    v.map_values(|s: String| s@)
}

/// The texts of `list` with `sep` between each two of them.
pub open spec fn join_texts(list: Seq<Seq<char>>, sep: Seq<char>) -> Seq<char>
    decreases list.len(),
{
    if list.len() == 0 {
        Seq::empty()
    } else if list.len() == 1 {
        list[0]
    } else {
        join_texts(list.drop_last(), sep) + sep + list.last()
    }
}

/// `count` spaces.
pub open spec fn spaces(count: nat) -> Seq<char> {
    Seq::new(count, |i: int| ' ')
}

/// `text` followed by enough spaces to make it `width` characters long; `text`
/// itself when it is already that long.
pub open spec fn padded(text: Seq<char>, width: nat) -> Seq<char> {
    if text.len() < width {
        text + spaces((width - text.len()) as nat)
    } else {
        text
    }
}

/// Joins the strings of `list`, with `sep` between each two of them.
pub fn join(list: &Vec<String>, sep: &str) -> (res: String)
    ensures
        res@ == join_texts(texts(list@), sep@),
{
    let ghost all = texts(list@);
    let mut res = String::new();
    let mut i: usize = 0;
    while i < list.len()
        invariant
            i <= list.len(),
            all == texts(list@),
            res@ == join_texts(all.take(i as int), sep@),
        decreases list.len() - i,
    {
        if i != 0 {
            res.append(sep);
        }
        res.append(list[i].as_str());
        assert(all.take(i + 1).drop_last() =~= all.take(i as int));
        i = i + 1;
    }
    assert(all.take(list.len() as int) =~= all);
    res
}

/// Pads `text` with spaces on the right up to `width` characters.
pub fn pad_right(text: &String, width: usize) -> (res: String)
    ensures
        res@ == padded(text@, width as nat),
{
    let len = text.as_str().unicode_len();
    let mut res = text.clone();
    if len < width {
        let mut k: usize = 0;
        while k < width - len
            invariant
                len == text@.len(),
                len < width,
                k <= width - len,
                res@ == text@ + spaces(k as nat),
            decreases width - len - k,
        {
            res.append(" ");
            proof {
                reveal_strlit(" ");
            }
            k = k + 1;
            assert(res@ =~= text@ + spaces(k as nat));
        }
    }
    res
}

/// `digits` with zeros in front to make it at least `width` characters long.
pub open spec fn zero_padded(digits: Seq<char>, width: nat) -> Seq<char> {
    if digits.len() < width {
        Seq::new((width - digits.len()) as nat, |i: int| '0') + digits
    } else {
        digits
    }
}

/// Writes `n` in decimal with zeros in front, at least `width` digits long.
pub fn zero_padded_decimal(n: u64, width: usize) -> (res: String)
    ensures
        res@ == zero_padded(decimal(n as nat), width as nat),
{
    let digits = decimal_string(n);
    let len: usize = digits.as_str().unicode_len();
    if len >= width {
        return digits;
    }
    let mut res = String::new();
    let mut k: usize = 0;
    while k < width - len
        invariant
            len < width,
            k <= width - len,
            res@ == Seq::new(k as nat, |i: int| '0'),
        decreases width - len - k,
    {
        res.append("0");
        proof {
            reveal_strlit("0");
        }
        k = k + 1;
        assert(res@ =~= Seq::new(k as nat, |i: int| '0'));
    }
    res.append(digits.as_str());
    res
}

} // verus!
