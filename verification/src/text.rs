use vstd::prelude::*;
use vstd::string::*;

verus! {

/// `String::push` of the standard library appends one character to the end of
/// the string and leaves the rest as it was.
pub assume_specification[ std::string::String::push ](text: &mut std::string::String, c: char)
    ensures
        final(text)@ == old(text)@.push(c),
;

/// The characters of `source`, in order.
pub fn to_chars(source: &str) -> (chars: Vec<char>)
    ensures
        chars@ == source@,
{
    let mut chars: Vec<char> = Vec::new();
    for c in it: source.chars()
        invariant
            it.seq() == source@,
            chars@ =~= it.seq().take(it.index()),
    {
        chars.push(c);
    }
    assert(chars@ =~= source@);
    chars
}

/// The string made of `chars[from..to]`.
pub fn to_text(chars: &Vec<char>, from: usize, to: usize) -> (text: String)
    requires
        from <= to <= chars.len(),
    ensures
        text@ == chars@.subrange(from as int, to as int),
{
    let mut text = String::new();
    let mut index: usize = from;
    while index < to
        invariant
            from <= index <= to <= chars.len(),
            text@ =~= chars@.subrange(from as int, index as int),
        decreases to - index,
    {
        text.push(chars[index]);
        index += 1;
    }
    text
}

// The text that the `Debug` form of a string has in the standard library:
// the string between double quotes, with an escape in the place of every
// character that needs one.
pub uninterp spec fn debug_of_str(text: Seq<char>) -> Seq<char>;

// The text that the `Debug` form of a character has in the standard
// library: the character between single quotes, or its escape.
pub uninterp spec fn debug_of_char(c: char) -> Seq<char>;

/// The `Debug` form of a string, as `format!` of the standard library gives
/// it for `{:?}`. It depends on the characters of the string alone; the
/// contract gives it its name and claims nothing more of it.
#[verifier::external_body]
pub(crate) fn debug_str(text: &str) -> (quoted: String)
    ensures
        quoted@ == debug_of_str(text@),
{
    format!("{:?}", text)
}

/// The `Debug` form of a character, as `format!` of the standard library
/// gives it for `{:?}`. It depends on the character alone; the contract
/// gives it its name and claims nothing more of it.
#[verifier::external_body]
pub(crate) fn debug_char(c: char) -> (quoted: String)
    ensures
        quoted@ == debug_of_char(c),
{
    format!("{:?}", c)
}

/// `name` with `payload` behind it in round brackets.
pub open spec fn bracketed(name: Seq<char>, payload: Seq<char>) -> Seq<char> {
    name + "("@ + payload + ")"@
}

/// `items` between square brackets.
pub open spec fn listed(items: Seq<char>) -> Seq<char> {
    "["@ + items + "]"@
}

/// The values of the strings of `texts`, in order.
pub open spec fn text_views(texts: Seq<String>) -> Seq<Seq<char>> {
    texts.map_values(|text: String| text@)
}

/// The first `count` of `items`, with a comma and a space between one and
/// the next.
pub open spec fn comma_joined(items: Seq<Seq<char>>, count: nat) -> Seq<char>
    decreases count,
{
    if count == 0 || count > items.len() {
        Seq::empty()
    } else if count == 1 {
        items[0]
    } else {
        comma_joined(items, (count - 1) as nat) + ", "@ + items[count - 1]
    }
}

/// Writes the strings `items` between square brackets, with a comma and a
/// space between one and the next.
pub fn comma_list(items: &Vec<String>) -> (text: String)
    ensures
        text@ == listed(comma_joined(text_views(items@), items@.len())),
{
    let ghost views = text_views(items@);
    let mut joined = String::new();
    let mut index: usize = 0;
    while index < items.len()
        invariant
            index <= items.len(),
            views == text_views(items@),
            joined@ == comma_joined(views, index as nat),
        decreases items.len() - index,
    {
        if index != 0 {
            joined.append(", ");
        }
        if index == 0 {
            assert(joined@ + items[0]@ =~= items[0]@);
        }
        joined.append(items[index].as_str());
        index += 1;
    }
    let mut text = "[".to_owned();
    text.append(joined.as_str());
    text.append("]");
    text
}

/// Writes `name` with `payload` behind it in round brackets.
pub fn bracket(name: &str, payload: &str) -> (text: String)
    ensures
        text@ == bracketed(name@, payload@),
{
    let mut text = name.to_owned();
    text.append("(");
    text.append(payload);
    text.append(")");
    text
}

/// The digit that stands for `n`, which is less than ten.
pub open spec fn digit(n: nat) -> char {
    if n == 0 {
        '0'
    } else if n == 1 {
        '1'
    } else if n == 2 {
        '2'
    } else if n == 3 {
        '3'
    } else if n == 4 {
        '4'
    } else if n == 5 {
        '5'
    } else if n == 6 {
        '6'
    } else if n == 7 {
        '7'
    } else if n == 8 {
        '8'
    } else {
        '9'
    }
}

/// The decimal digits of `n`, the most significant first.
pub open spec fn decimal(n: nat) -> Seq<char>
    decreases n,
{
    if n < 10 {
        seq![digit(n)]
    } else {
        decimal(n / 10).push(digit(n % 10))
    }
}

/// The digit that stands for `n`.
fn digit_of(n: usize) -> (c: char)
    requires
        n < 10,
    ensures
        c == digit(n as nat),
{
    if n == 0 {
        '0'
    } else if n == 1 {
        '1'
    } else if n == 2 {
        '2'
    } else if n == 3 {
        '3'
    } else if n == 4 {
        '4'
    } else if n == 5 {
        '5'
    } else if n == 6 {
        '6'
    } else if n == 7 {
        '7'
    } else if n == 8 {
        '8'
    } else {
        '9'
    }
}

/// Writes `n` in decimal digits.
pub fn to_decimal(n: usize) -> (text: String)
    ensures
        text@ == decimal(n as nat),
    decreases n,
{
    if n < 10 {
        let mut text = String::new();
        text.push(digit_of(n));
        assert(text@ =~= seq![digit(n as nat)]);
        text
    } else {
        let mut text = to_decimal(n / 10);
        text.push(digit_of(n % 10));
        text
    }
}

} // verus!
