use vstd::prelude::*;

verus! {

/// What `str::trim` leaves of a text: the text without its leading and
/// trailing Unicode white space.
pub uninterp spec fn trimmed(s: Seq<char>) -> Seq<char>;

/// The character of a decimal digit.
pub open spec fn digit_char(d: nat) -> char {
    if d == 0 {
        '0'
    } else if d == 1 {
        '1'
    } else if d == 2 {
        '2'
    } else if d == 3 {
        '3'
    } else if d == 4 {
        '4'
    } else if d == 5 {
        '5'
    } else if d == 6 {
        '6'
    } else if d == 7 {
        '7'
    } else if d == 8 {
        '8'
    } else {
        '9'
    }
}

/// A number written in decimal, without sign or leading zeros.
pub open spec fn decimal(n: nat) -> Seq<char>
    decreases n,
{
    if n < 10 {
        seq![digit_char(n)]
    } else {
        decimal(n / 10).push(digit_char(n % 10))
    }
}

/// The key under which a joined entry is stored: the key, an underscore and
/// the number in decimal.
pub open spec fn numbered(key: Seq<char>, n: nat) -> Seq<char> {
    key + seq!['_'] + decimal(n)
}

/// How many of the first `n` items equal the target once both are trimmed.
pub open spec fn count_trimmed(items: Seq<Seq<char>>, target: Seq<char>, n: nat) -> nat
    decreases n,
{
    if n == 0 || n > items.len() {
        0
    } else {
        let rest = count_trimmed(items, target, (n - 1) as nat);
        if trimmed(items[n - 1]) == trimmed(target) {
            rest + 1
        } else {
            rest
        }
    }
}

/// What `String::from_utf8_lossy` reads from bytes: their text as UTF-8, with
/// the replacement character for what is not.
pub uninterp spec fn lossy_text(bytes: Seq<u8>) -> Seq<char>;

/// Calls `String::from_utf8_lossy` and copies what it returns. Trusted: the
/// result is the text that `lossy_text` names, a function of the bytes alone.
#[verifier::external_body]
pub(crate) fn read_lossy(bytes: &Vec<u8>) -> (r: String)
    ensures
        r@ == lossy_text(bytes@),
{
    String::from_utf8_lossy(bytes).to_string()
}

/// Calls `str::trim` and copies the slice it returns. Trusted: the result is
/// the text that `trimmed` names, a function of the argument alone.
#[verifier::external_body]
pub(crate) fn trim_text(s: &str) -> (r: String)
    ensures
        r@ == trimmed(s@),
{
    s.trim().to_string()
}

/// Formats a key, an underscore and a count with `format!`. Trusted: the
/// macro writes the key as it is and the count in decimal, as `Display` for
/// `usize` documents.
#[verifier::external_body]
pub(crate) fn numbered_key(key: &str, n: usize) -> (r: String)
    ensures
        r@ == numbered(key@, n as nat),
{
    format!("{}_{}", key, n)
}

/// Whether two texts are the same once both are trimmed.
pub fn same_trimmed(a: &String, b: &String) -> (r: bool)
    ensures
        r == (trimmed(a@) == trimmed(b@)),
{
    let left = trim_text(a.as_str());
    let right = trim_text(b.as_str());
    left == right
}

/// Counts the items that equal `value` once both are trimmed.
pub fn count_of(items: &Vec<String>, value: &String) -> (r: usize)
    ensures
        r == count_trimmed(items.deep_view(), value@, items.len() as nat),
{
    let target = trim_text(value.as_str());
    let mut count: usize = 0;
    let mut i: usize = 0;
    while i < items.len()
        invariant
            i <= items.len(),
            count <= i,
            target@ == trimmed(value@),
            count == count_trimmed(items.deep_view(), value@, i as nat),
        decreases items.len() - i,
    {
        let item = trim_text(items[i].as_str());
        if item == target {
            count += 1;
        }
        i += 1;
    }
    count
}

/// Counts the items that equal `value` once both are trimmed, taking both
/// over.
pub fn count_val(vec: Vec<String>, value: String) -> (r: usize)
    ensures
        r == count_trimmed(vec.deep_view(), value@, vec.len() as nat),
{
    count_of(&vec, &value)
}

} // verus!
