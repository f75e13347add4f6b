use std::collections::VecDeque;
use vstd::arithmetic::power2::pow2;
use vstd::prelude::*;

verus! {

/// Whether `bits` is no number: all exponent bits set, and a fraction that
/// is not zero.
pub open spec fn is_nan(bits: u64) -> bool {
    bits & 0x7ff0_0000_0000_0000 == 0x7ff0_0000_0000_0000 && bits & 0x000f_ffff_ffff_ffff != 0
}

/// `bits` without its sign.
pub open spec fn magnitude(bits: u64) -> u64 {
    bits & 0x7fff_ffff_ffff_ffff
}

/// Whether the sign bit of `bits` is set.
pub open spec fn is_negative(bits: u64) -> bool {
    bits & 0x8000_0000_0000_0000 != 0
}

/// Whether the doubles `left` and `right` are equal: neither is NaN, and
/// they have the same bits or are both zero.
pub open spec fn number_equal(left: u64, right: u64) -> bool {
    !is_nan(left) && !is_nan(right) && (left == right || (magnitude(left) == 0 && magnitude(right)
        == 0))
}

/// Whether the double `left` is less than the double `right`: neither is
/// NaN, and among numbers of one sign the magnitudes decide.
pub open spec fn number_less(left: u64, right: u64) -> bool {
    !is_nan(left) && !is_nan(right) && if is_negative(left) {
        if is_negative(right) {
            magnitude(left) > magnitude(right)
        } else {
            magnitude(left) != 0 || magnitude(right) != 0
        }
    } else {
        !is_negative(right) && magnitude(left) < magnitude(right)
    }
}

/// The double `bits` cut off toward zero, where that is a whole number from
/// 0 up to the greatest that 64 bits hold. Numbers from -1 down, numbers
/// too great, the infinities and NaN give `None`.
pub open spec fn truncated_index(bits: u64) -> Option<u64> {
    let exponent = (bits >> 52) & 0x7ff;
    let mantissa = (bits & 0x000f_ffff_ffff_ffff) | 0x0010_0000_0000_0000;
    if exponent < 1023 {
        Some(0u64)
    } else if is_negative(bits) || exponent > 1086 {
        None
    } else if exponent <= 1075 {
        Some(mantissa >> ((1075 - exponent) as u64))
    } else {
        Some(mantissa << ((exponent - 1075) as u64))
    }
}

/// The sign of the double `bits`: 1 for a number below zero and for the
/// negative zero, and 0 for the others.
pub open spec fn sign_of(bits: u64) -> int {
    (bits / 0x8000_0000_0000_0000u64) as int
}

/// The exponent of the double `bits`, as it is stored: a number below
/// 2048, which is 1023 more than the power of two by which the double is
/// scaled.
pub open spec fn exponent_of(bits: u64) -> int {
    ((bits / 0x0010_0000_0000_0000u64) % 2048) as int
}

/// The fraction of the double `bits`: a number below 2^52.
pub open spec fn fraction_of(bits: u64) -> int {
    (bits % 0x0010_0000_0000_0000u64) as int
}

/// The place of the double `bits` in the order of the doubles, as a whole
/// number: its exponent and fraction read as one number, taken below zero
/// for a negative double. A double that is less has a lesser place, and
/// the two zeros share the place 0.
pub open spec fn place_of(bits: u64) -> int {
    let distance = exponent_of(bits) * 0x0010_0000_0000_0000 + fraction_of(bits);
    if sign_of(bits) == 1 {
        -distance
    } else {
        distance
    }
}

/// The bits of a double are its sign, its exponent and its fraction, and
/// the tests on the bits are tests on these three numbers: a NaN has the
/// greatest exponent and a fraction that is not zero, a negative double has
/// the sign 1, and the magnitude is the exponent and the fraction read as
/// one number.
pub proof fn lemma_number_fields(bits: u64)
    ensures
        0 <= sign_of(bits) <= 1,
        0 <= exponent_of(bits) < 2048,
        0 <= fraction_of(bits) < 0x0010_0000_0000_0000,
        bits == sign_of(bits) * 0x8000_0000_0000_0000 + exponent_of(bits) * 0x0010_0000_0000_0000
            + fraction_of(bits),
        is_nan(bits) <==> exponent_of(bits) == 2047 && fraction_of(bits) != 0,
        is_negative(bits) <==> sign_of(bits) == 1,
        magnitude(bits) == exponent_of(bits) * 0x0010_0000_0000_0000 + fraction_of(bits),
{
    assert(bits / 0x8000_0000_0000_0000u64 <= 1) by (bit_vector);
    assert(bits == (bits / 0x8000_0000_0000_0000u64) * 0x8000_0000_0000_0000 + ((bits
        / 0x0010_0000_0000_0000u64) % 2048) * 0x0010_0000_0000_0000 + bits
        % 0x0010_0000_0000_0000u64) by (bit_vector);
    assert((bits & 0x7ff0_0000_0000_0000 == 0x7ff0_0000_0000_0000) <==> (bits
        / 0x0010_0000_0000_0000u64) % 2048 == 2047) by (bit_vector);
    assert(bits & 0x000f_ffff_ffff_ffff == bits % 0x0010_0000_0000_0000u64) by (bit_vector);
    assert((bits & 0x8000_0000_0000_0000 != 0) <==> bits / 0x8000_0000_0000_0000u64 == 1)
        by (bit_vector);
    assert(bits & 0x7fff_ffff_ffff_ffff == ((bits / 0x0010_0000_0000_0000u64) % 2048)
        * 0x0010_0000_0000_0000 + bits % 0x0010_0000_0000_0000u64) by (bit_vector);
}

/// Two doubles compare as their places do: they are equal where neither is
/// NaN and they have the same place, and the first is less where neither
/// is NaN and its place is less. So the zeros are equal, a NaN is neither
/// equal to nor less than anything, and the infinities stand at the two
/// ends.
pub proof fn lemma_number_order(left: u64, right: u64)
    ensures
        number_equal(left, right) <==> !is_nan(left) && !is_nan(right) && place_of(left)
            == place_of(right),
        number_less(left, right) <==> !is_nan(left) && !is_nan(right) && place_of(left) < place_of(
            right,
        ),
{
    lemma_number_fields(left);
    lemma_number_fields(right);
}

/// A double with the exponent `e` and the fraction `f` is the number
/// (2^52 + f) × 2^(e − 1075), for `e` from 1 on. Its index is that number
/// cut off toward zero: 0 below 1, the quotient by the power of two up to
/// 2^52, and the product with it above. A double from −1 down, and one from
/// 2^64 up, among them the infinities and NaN, has no index.
pub proof fn lemma_truncated_index(bits: u64)
    ensures
        exponent_of(bits) < 1023 ==> truncated_index(bits) == Some(0u64),
        exponent_of(bits) >= 1023 && (sign_of(bits) == 1 || exponent_of(bits) > 1086)
            ==> truncated_index(bits).is_none(),
        sign_of(bits) == 0 && 1023 <= exponent_of(bits) <= 1075 ==> truncated_index(bits)
            == Some(
            ((0x0010_0000_0000_0000 + fraction_of(bits)) / (pow2(
                (1075 - exponent_of(bits)) as nat,
            ) as int)) as u64,
        ),
        sign_of(bits) == 0 && 1075 < exponent_of(bits) <= 1086 ==> truncated_index(bits) == Some(
            ((0x0010_0000_0000_0000 + fraction_of(bits)) * pow2(
                (exponent_of(bits) - 1075) as nat,
            )) as u64,
        ) && (0x0010_0000_0000_0000 + fraction_of(bits)) * pow2(
            (exponent_of(bits) - 1075) as nat,
        ) <= u64::MAX,
{
    lemma_number_fields(bits);
    let exponent = (bits >> 52) & 0x7ff;
    let mantissa = (bits & 0x000f_ffff_ffff_ffff) | 0x0010_0000_0000_0000;
    assert((bits >> 52) & 0x7ff == (bits / 0x0010_0000_0000_0000u64) % 2048) by (bit_vector);
    assert((bits & 0x000f_ffff_ffff_ffff) | 0x0010_0000_0000_0000 == 0x0010_0000_0000_0000 + bits
        % 0x0010_0000_0000_0000u64) by (bit_vector);
    assert(exponent == exponent_of(bits));
    assert(mantissa == 0x0010_0000_0000_0000 + fraction_of(bits));
    if sign_of(bits) == 0 && 1023 <= exponent <= 1075 {
        let shift = (1075 - exponent) as u64;
        vstd::bits::lemma_u64_shr_is_div(mantissa, shift);
    }
    if sign_of(bits) == 0 && 1075 < exponent <= 1086 {
        let shift = (exponent - 1075) as u64;
        vstd::arithmetic::power2::lemma2_to64();
        assert(pow2(shift as nat) <= 2048) by {
            if shift < 11 {
                vstd::arithmetic::power2::lemma_pow2_strictly_increases(shift as nat, 11);
            }
        }
        assert(mantissa * pow2(shift as nat) <= u64::MAX) by (nonlinear_arith)
            requires
                mantissa < 0x0020_0000_0000_0000,
                pow2(shift as nat) <= 2048,
        ;
        vstd::bits::lemma_u64_shl_is_mul(mantissa, shift);
    }
}

/// Whether two doubles, given by their bits, are equal.
pub fn numbers_equal(left: u64, right: u64) -> (equal: bool)
    ensures
        equal == number_equal(left, right),
{
    let left_nan = left & 0x7ff0_0000_0000_0000 == 0x7ff0_0000_0000_0000 && left
        & 0x000f_ffff_ffff_ffff != 0;
    let right_nan = right & 0x7ff0_0000_0000_0000 == 0x7ff0_0000_0000_0000 && right
        & 0x000f_ffff_ffff_ffff != 0;
    !left_nan && !right_nan && (left == right || (left & 0x7fff_ffff_ffff_ffff == 0 && right
        & 0x7fff_ffff_ffff_ffff == 0))
}

/// Whether the first of two doubles, given by their bits, is less than
/// the second.
pub fn number_is_less(left: u64, right: u64) -> (less: bool)
    ensures
        less == number_less(left, right),
{
    let left_nan = left & 0x7ff0_0000_0000_0000 == 0x7ff0_0000_0000_0000 && left
        & 0x000f_ffff_ffff_ffff != 0;
    let right_nan = right & 0x7ff0_0000_0000_0000 == 0x7ff0_0000_0000_0000 && right
        & 0x000f_ffff_ffff_ffff != 0;
    let left_negative = left & 0x8000_0000_0000_0000 != 0;
    let right_negative = right & 0x8000_0000_0000_0000 != 0;
    let left_magnitude = left & 0x7fff_ffff_ffff_ffff;
    let right_magnitude = right & 0x7fff_ffff_ffff_ffff;
    !left_nan && !right_nan && if left_negative {
        if right_negative {
            left_magnitude > right_magnitude
        } else {
            left_magnitude != 0 || right_magnitude != 0
        }
    } else {
        !right_negative && left_magnitude < right_magnitude
    }
}

/// Cuts a double, given by its bits, off toward zero to an index.
pub fn truncate_to_index(bits: u64) -> (index: Option<u64>)
    ensures
        index == truncated_index(bits),
{
    let exponent = (bits >> 52) & 0x7ff;
    let mantissa = (bits & 0x000f_ffff_ffff_ffff) | 0x0010_0000_0000_0000;
    assert(exponent <= 0x7ff) by (bit_vector)
        requires
            exponent == (bits >> 52) & 0x7ff,
    ;
    if exponent < 1023 {
        Some(0)
    } else if bits & 0x8000_0000_0000_0000 != 0 || exponent > 1086 {
        None
    } else if exponent <= 1075 {
        Some(mantissa >> (1075 - exponent))
    } else {
        Some(mantissa << (exponent - 1075))
    }
}

/// A value that a program computes.
#[derive(Debug)]
pub enum Value {
    /// A number: an IEEE 754 double, held as its 64 bits.
    Number(u64),
    String(String),
    List(Vec<Value>),
    Bool(bool),
    Null,
}

/// The mathematical value of a [`Value`].
pub enum ValueView {
    Number(u64),
    String(Seq<char>),
    List(Seq<ValueView>),
    Bool(bool),
    Null,
}

/// The values of the values of `values`, in order.
pub open spec fn value_views(values: Seq<Value>) -> Seq<ValueView> {
    values.map_values(|value: Value| value@)
}

impl Value {
    /// The value of the value.
    pub open spec fn model(&self) -> ValueView
        decreases self,
    {
        match self {
            Value::Number(bits) => ValueView::Number(*bits),
            Value::String(content) => ValueView::String(content@),
            Value::List(elements) => ValueView::List(Value::models(elements)),
            Value::Bool(value) => ValueView::Bool(*value),
            Value::Null => ValueView::Null,
        }
    }

    /// The values of the values that `values` holds, in order.
    pub open spec fn models(values: &Vec<Value>) -> Seq<ValueView>
        decreases values,
    {
        Seq::new(
            values.len() as nat,
            |i: int|
                if 0 <= i < values.len() {
                    values[i].model()
                } else {
                    ValueView::Null
                },
        )
    }

    /// The values that a list holds are those of its elements.
    pub proof fn lemma_models(values: &Vec<Value>)
        ensures
            Value::models(values) == value_views(values@),
    {
        assert(Value::models(values) =~= value_views(values@));
    }

    /// Copies of the values that `values` holds.
    pub fn clone_all(values: &Vec<Value>) -> (copies: Vec<Value>)
        ensures
            value_views(copies@) == value_views(values@),
        decreases values,
    {
        let mut copies: Vec<Value> = Vec::new();
        let mut index: usize = 0;
        while index < values.len()
            invariant
                index <= values.len(),
                copies.len() == index,
                forall|i: int| 0 <= i < index ==> copies[i]@ == values[i]@,
            decreases values.len() - index,
        {
            copies.push(values[index].clone());
            index += 1;
        }
        assert(value_views(copies@) =~= value_views(values@));
        copies
    }

    /// Puts the pieces that `表示` shows for the value behind those of
    /// `pieces`.
    pub fn write_pieces(&self, pieces: &mut VecDeque<Piece>)
        ensures
            piece_views(final(pieces)@) == piece_views(old(pieces)@) + pieces_of(self@),
        decreases self,
    {
        let ghost before = piece_views(pieces@);
        match self {
            Value::Number(bits) => {
                pieces.push_back(Piece::Number(*bits));
                assert(piece_views(pieces@) =~= before + seq![PieceView::Number(*bits)]);
            },
            Value::String(content) => {
                pieces.push_back(Piece::Text(content.clone()));
                assert(piece_views(pieces@) =~= before + seq![PieceView::Text(content@)]);
            },
            Value::List(elements) => {
                proof {
                    Value::lemma_models(elements);
                }
                pieces.push_back(Piece::Text("[".to_owned()));
                assert(piece_views(pieces@) =~= before + seq![PieceView::Text("["@)]);
                Value::write_items(elements, pieces);
                let ghost inner = piece_views(pieces@);
                pieces.push_back(Piece::Text("]".to_owned()));
                assert(piece_views(pieces@) =~= inner + seq![PieceView::Text("]"@)]);
                assert(piece_views(pieces@) =~= before + pieces_of(self@));
            },
            Value::Bool(true) => {
                pieces.push_back(Piece::Text("真".to_owned()));
                assert(piece_views(pieces@) =~= before + seq![PieceView::Text("真"@)]);
            },
            Value::Bool(false) => {
                pieces.push_back(Piece::Text("偽".to_owned()));
                assert(piece_views(pieces@) =~= before + seq![PieceView::Text("偽"@)]);
            },
            Value::Null => {
                pieces.push_back(Piece::Text("無".to_owned()));
                assert(piece_views(pieces@) =~= before + seq![PieceView::Text("無"@)]);
            },
        }
    }

    /// Puts the pieces of the elements `elements`, with the commas between
    /// them, behind those of `pieces`.
    pub fn write_items(elements: &Vec<Value>, pieces: &mut VecDeque<Piece>)
        ensures
            piece_views(final(pieces)@) == piece_views(old(pieces)@) + item_pieces(
                value_views(elements@),
                elements@.len(),
            ),
        decreases elements,
    {
        let ghost before = piece_views(pieces@);
        let mut index: usize = 0;
        assert(piece_views(pieces@) =~= before + item_pieces(value_views(elements@), 0));
        while index < elements.len()
            invariant
                index <= elements.len(),
                piece_views(pieces@) == before + item_pieces(
                    value_views(elements@),
                    index as nat,
                ),
            decreases elements.len() - index,
        {
            let ghost written = piece_views(pieces@);
            if index != 0 {
                pieces.push_back(Piece::Text(", ".to_owned()));
                assert(piece_views(pieces@) =~= written + seq![PieceView::Text(", "@)]);
            }
            elements[index].write_pieces(pieces);
            index += 1;
            assert(piece_views(pieces@) =~= before + item_pieces(
                value_views(elements@),
                index as nat,
            ));
        }
    }

    /// The pieces that `表示` shows for the value.
    pub fn pieces(&self) -> (pieces: VecDeque<Piece>)
        ensures
            piece_views(pieces@) == pieces_of(self@),
    {
        let mut pieces: VecDeque<Piece> = VecDeque::new();
        assert(piece_views(pieces@) =~= Seq::empty());
        self.write_pieces(&mut pieces);
        assert(Seq::<PieceView>::empty() + pieces_of(self@) =~= pieces_of(self@));
        pieces
    }
}

impl View for Value {
    type V = ValueView;

    open spec fn view(&self) -> ValueView {
        self.model()
    }
}

impl Clone for Value {
    fn clone(&self) -> (copy: Value)
        ensures
            copy@ == self@,
        decreases self,
    {
        match self {
            Value::Number(bits) => Value::Number(*bits),
            Value::String(content) => Value::String(content.clone()),
            Value::List(elements) => {
                let copies = Value::clone_all(elements);
                proof {
                    Value::lemma_models(elements);
                    Value::lemma_models(&copies);
                }
                Value::List(copies)
            },
            Value::Bool(value) => Value::Bool(*value),
            Value::Null => Value::Null,
        }
    }
}

/// A piece of the line that `表示` shows: text as it is, or a number, whose
/// decimal text stands in its place.
#[derive(Debug)]
pub enum Piece {
    Text(String),
    Number(u64),
}

/// The mathematical value of a [`Piece`].
pub enum PieceView {
    Text(Seq<char>),
    Number(u64),
}

impl View for Piece {
    type V = PieceView;

    open spec fn view(&self) -> PieceView {
        match self {
            Piece::Text(text) => PieceView::Text(text@),
            Piece::Number(bits) => PieceView::Number(*bits),
        }
    }
}

/// The values of the pieces of `pieces`, in order.
pub open spec fn piece_views(pieces: Seq<Piece>) -> Seq<PieceView> {
    pieces.map_values(|piece: Piece| piece@)
}

/// What `表示` shows for `value`, piece by piece: a number as its decimal
/// text, a string as it is, `真` and `偽` for the booleans, `無` for null,
/// and a list as its elements between brackets.
pub open spec fn pieces_of(value: ValueView) -> Seq<PieceView>
    decreases value, 0nat,
{
    match value {
        ValueView::Number(bits) => seq![PieceView::Number(bits)],
        ValueView::String(content) => seq![PieceView::Text(content)],
        ValueView::List(elements) => seq![PieceView::Text("["@)] + item_pieces(
            elements,
            elements.len(),
        ) + seq![PieceView::Text("]"@)],
        ValueView::Bool(true) => seq![PieceView::Text("真"@)],
        ValueView::Bool(false) => seq![PieceView::Text("偽"@)],
        ValueView::Null => seq![PieceView::Text("無"@)],
    }
}

/// What `表示` shows for the first `count` of `elements`, with a comma and a
/// space between one and the next.
pub open spec fn item_pieces(elements: Seq<ValueView>, count: nat) -> Seq<PieceView>
    decreases elements, count,
{
    if count == 0 || count > elements.len() {
        Seq::empty()
    } else if count == 1 {
        pieces_of(elements[0])
    } else {
        item_pieces(elements, (count - 1) as nat) + seq![PieceView::Text(", "@)] + pieces_of(
            elements[count - 1],
        )
    }
}

} // verus!
