//! What an event carries: a payload that describes itself as an ordered list
//! of named, tagged fields.

use vstd::prelude::*;

verus! {

/// The type tags a payload field can carry. The value of a field always
/// travels as a string; its tag says how to read it.
#[derive(PartialEq, Eq, Structural, Clone, Copy, Debug)]
pub enum QuAvailableTypeInEvent {
    /// String parameters
    String,
    /// float parameters
    Float,
    /// uint8 parameters
    Uint8,
    /// uint32 parameters
    Uint32,
    /// uint64 parameters
    Uint64,
    /// int8 parameters
    Int8,
    /// int32 parameters
    Int32,
    /// int64 parameters
    Int64,
}

/// One described field: its name, its type tag and its value as a string.
pub type QuField = (String, QuAvailableTypeInEvent, String);

/// The mathematical value of one described field.
pub type QuFieldView = (Seq<char>, QuAvailableTypeInEvent, Seq<char>);

/// The mathematical value of a described field.
pub open spec fn field_view(field: QuField) -> QuFieldView {
    (field.0@, field.1, field.2@)
}

/// The mathematical value of a list of described fields: the same fields in
/// the same order, each string taken by its characters.
pub open spec fn key_map_view(key_map: Seq<QuField>) -> Seq<QuFieldView> {
    Seq::new(key_map.len(), |i: int| field_view(key_map[i]))
}

/// What every event argument implements: it exposes its fields as an ordered
/// list of (name, type tag, value) triples. The bus never looks further into a
/// payload than this.
pub trait QuInformationData: Send + Sync {
    /// The fields of the payload, in their declared order.
    spec fn fields(&self) -> Seq<QuFieldView>;

    /// Converts the attributes of the payload to its list of fields: always
    /// the same list for the same payload.
    fn convert_to_key_map(&self) -> (key_map: Vec<QuField>)
        ensures
            key_map_view(key_map@) == self.fields(),
    ;
}

/// The payload that is nothing but its fields: for whoever has the fields at
/// hand and no type of their own to carry them.
pub struct QuFieldList {
    /// The fields, in order.
    pub m_fields: Vec<QuField>,
}

impl QuInformationData for QuFieldList {
    open spec fn fields(&self) -> Seq<QuFieldView> {
        key_map_view(self.m_fields@)
    }

    fn convert_to_key_map(&self) -> (key_map: Vec<QuField>) {
        let mut key_map: Vec<QuField> = Vec::new();
        let mut i: usize = 0;
        while i < self.m_fields.len()
            invariant
                i <= self.m_fields@.len(),
                key_map@.len() == i,
                forall|j: int|
                    0 <= j < i ==> field_view(#[trigger] key_map@[j]) == field_view(
                        self.m_fields@[j],
                    ),
            decreases self.m_fields@.len() - i,
        {
            let field = &self.m_fields[i];
            key_map.push((field.0.clone(), field.1, field.2.clone()));
            i += 1;
        }
        assert(key_map_view(key_map@) =~= key_map_view(self.m_fields@));
        key_map
    }
}

/// The character of a decimal digit.
pub open spec fn digit_char(digit: nat) -> char {
    if digit == 0 {
        '0'
    } else if digit == 1 {
        '1'
    } else if digit == 2 {
        '2'
    } else if digit == 3 {
        '3'
    } else if digit == 4 {
        '4'
    } else if digit == 5 {
        '5'
    } else if digit == 6 {
        '6'
    } else if digit == 7 {
        '7'
    } else if digit == 8 {
        '8'
    } else {
        '9'
    }
}

/// The decimal representation of a number, as numeric values travel in a
/// field: its digits, the most significant first, without sign or padding.
pub open spec fn decimal(number: nat) -> Seq<char>
    decreases number,
{
    if number < 10 {
        seq![digit_char(number)]
    } else {
        decimal(number / 10).push(digit_char(number % 10))
    }
}

/// One decimal digit as a string.
fn digit_string(digit: u64) -> (text: &'static str)
    requires
        digit < 10,
    ensures
        text@ == seq![digit_char(digit as nat)],
{
    proof {
        reveal_strlit("0");
        reveal_strlit("1");
        reveal_strlit("2");
        reveal_strlit("3");
        reveal_strlit("4");
        reveal_strlit("5");
        reveal_strlit("6");
        reveal_strlit("7");
        reveal_strlit("8");
        reveal_strlit("9");
    }
    let text = if digit == 0 {
        "0"
    } else if digit == 1 {
        "1"
    } else if digit == 2 {
        "2"
    } else if digit == 3 {
        "3"
    } else if digit == 4 {
        "4"
    } else if digit == 5 {
        "5"
    } else if digit == 6 {
        "6"
    } else if digit == 7 {
        "7"
    } else if digit == 8 {
        "8"
    } else {
        "9"
    };
    assert(text@ =~= seq![digit_char(digit as nat)]);
    text
}

/// Writes a number as it travels in a field: in decimal.
pub fn decimal_string(number: u64) -> (text: String)
    ensures
        text@ == decimal(number as nat),
    decreases number,
{
    if number < 10 {
        String::from_str(digit_string(number))
    } else {
        let mut text = decimal_string(number / 10);
        text.append(digit_string(number % 10));
        assert(text@ =~= decimal(number as nat));
        text
    }
}

} // verus!
