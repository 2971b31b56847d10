//! The rules of the instructions that construct a value of a circuit from
//! raw bytes: how many arguments such a call takes, how many bytes each
//! type needs, and which types cannot be made from bytes at all.

use vstd::prelude::*;
use vstd::slice::slice_to_vec;
use vstd::string::*;

verus! {

/// The types that the instruction family names.
#[derive(Clone, Copy, Debug, PartialEq, Eq, Structural)]
pub enum ValueType {
    Address,
    Boolean,
    Char,
    Field,
    Group,
    I8,
    I16,
    I32,
    I64,
    I128,
    U8,
    U16,
    U32,
    U64,
    U128,
}

/// The order in which the bytes of a value are given.
#[derive(Clone, Copy, Debug, PartialEq, Eq, Structural)]
pub enum ByteOrder {
    LittleEndian,
    BigEndian,
}

/// An argument of a call, as far as these instructions look at it.
#[derive(Debug, PartialEq, Eq)]
pub enum Argument {
    /// An array of bytes.
    Bytes(Vec<u8>),
    /// Any other value.
    Other,
}

/// Why a call does not construct a value.
#[derive(Clone, Copy, Debug, PartialEq, Eq, Structural)]
pub enum ConversionError {
    /// The call does not have exactly one argument.
    ArgumentCount { order: ByteOrder, found: usize },
    /// The type cannot be made from bytes.
    UnsupportedOperation { value_type: ValueType, order: ByteOrder },
    /// The argument is not an array of bytes.
    NotBytes { value_type: ValueType, order: ByteOrder },
    /// The argument has not the number of bytes that the type needs.
    ByteWidth { value_type: ValueType, order: ByteOrder, expected: usize, found: usize },
}

/// The number of bytes that a value of the type is made from.
pub open spec fn byte_width(value_type: ValueType) -> nat {
    match value_type {
        ValueType::Boolean | ValueType::I8 | ValueType::U8 => 1,
        ValueType::I16 | ValueType::U16 => 2,
        ValueType::I32 | ValueType::U32 => 4,
        ValueType::I64 | ValueType::U64 => 8,
        ValueType::I128 | ValueType::U128 => 16,
        ValueType::Address | ValueType::Char | ValueType::Field => 32,
        ValueType::Group => 64,
    }
}

/// Types that are refused before their argument is looked at.
pub open spec fn refused_outright(value_type: ValueType) -> bool {
    value_type == ValueType::Char || value_type == ValueType::Field
}

/// Types that are refused after their argument was found to have the right width.
pub open spec fn refused_after_width(value_type: ValueType) -> bool {
    value_type == ValueType::Group
}

/// What a call gives: the bytes from which the value is to be made, or the
/// reason why none is made. The number of arguments is looked at first,
/// whatever the type.
pub open spec fn conversion(
    value_type: ValueType,
    order: ByteOrder,
    arguments: Seq<Argument>,
) -> Result<Seq<u8>, ConversionError> {
    if arguments.len() != 1 {
        Err(ConversionError::ArgumentCount { order, found: arguments.len() as usize })
    } else if refused_outright(value_type) {
        Err(ConversionError::UnsupportedOperation { value_type, order })
    } else {
        match arguments[0] {
            Argument::Other => Err(ConversionError::NotBytes { value_type, order }),
            Argument::Bytes(bytes) => if bytes@.len() != byte_width(value_type) {
                Err(
                    ConversionError::ByteWidth {
                        value_type,
                        order,
                        expected: byte_width(value_type) as usize,
                        found: bytes@.len() as usize,
                    },
                )
            } else if refused_after_width(value_type) {
                Err(ConversionError::UnsupportedOperation { value_type, order })
            } else {
                Ok(bytes@)
            },
        }
    }
}

/// The number of bytes that a value of the type is made from.
pub fn width_of(value_type: ValueType) -> (width: usize)
    ensures
        width == byte_width(value_type),
{
    match value_type {
        ValueType::Boolean | ValueType::I8 | ValueType::U8 => 1,
        ValueType::I16 | ValueType::U16 => 2,
        ValueType::I32 | ValueType::U32 => 4,
        ValueType::I64 | ValueType::U64 => 8,
        ValueType::I128 | ValueType::U128 => 16,
        ValueType::Address | ValueType::Char | ValueType::Field => 32,
        ValueType::Group => 64,
    }
}

/// Checks a call of the instruction that makes a `value_type` from bytes in
/// the given order, and hands out the bytes from which the value is to be made.
pub fn from_bytes(value_type: ValueType, order: ByteOrder, arguments: &[Argument]) -> (outcome:
    Result<Vec<u8>, ConversionError>)
    ensures
        match outcome {
            Ok(bytes) => conversion(value_type, order, arguments@) == Ok::<
                Seq<u8>,
                ConversionError,
            >(bytes@),
            Err(error) => conversion(value_type, order, arguments@) == Err::<
                Seq<u8>,
                ConversionError,
            >(error),
        },
{
    if arguments.len() != 1 {
        return Err(ConversionError::ArgumentCount { order, found: arguments.len() });
    }
    match value_type {
        ValueType::Char | ValueType::Field => {
            return Err(ConversionError::UnsupportedOperation { value_type, order });
        },
        _ => {},
    }
    match &arguments[0] {
        Argument::Other => Err(ConversionError::NotBytes { value_type, order }),
        Argument::Bytes(bytes) => {
            let expected: usize = width_of(value_type);
            if bytes.len() != expected {
                Err(
                    ConversionError::ByteWidth { value_type, order, expected, found: bytes.len() },
                )
            } else {
                match value_type {
                    ValueType::Group => Err(
                        ConversionError::UnsupportedOperation { value_type, order },
                    ),
                    _ => Ok(slice_to_vec(bytes.as_slice())),
                }
            }
        },
    }
}

/// The name of a type in the names of the instructions.
pub open spec fn name_of_type(value_type: ValueType) -> Seq<char> {
    match value_type {
        ValueType::Address => "address"@,
        ValueType::Boolean => "bool"@,
        ValueType::Char => "char"@,
        ValueType::Field => "field"@,
        ValueType::Group => "group"@,
        ValueType::I8 => "i8"@,
        ValueType::I16 => "i16"@,
        ValueType::I32 => "i32"@,
        ValueType::I64 => "i64"@,
        ValueType::I128 => "i128"@,
        ValueType::U8 => "u8"@,
        ValueType::U16 => "u16"@,
        ValueType::U32 => "u32"@,
        ValueType::U64 => "u64"@,
        ValueType::U128 => "u128"@,
    }
}

/// The name of the method for a byte order.
pub open spec fn name_of_method(order: ByteOrder) -> Seq<char> {
    match order {
        ByteOrder::LittleEndian => "from_bytes_le"@,
        ByteOrder::BigEndian => "from_bytes_be"@,
    }
}

/// The name under which the instruction is called: the type, an
/// underscore, the method.
pub open spec fn instruction_name(value_type: ValueType, order: ByteOrder) -> Seq<char> {
    name_of_type(value_type) + "_"@ + name_of_method(order)
}

impl ValueType {
    /// The name of the type in the names of the instructions.
    pub fn name(&self) -> (name: &'static str)
        ensures
            name@ == name_of_type(*self),
    {
        match self {
            ValueType::Address => "address",
            ValueType::Boolean => "bool",
            ValueType::Char => "char",
            ValueType::Field => "field",
            ValueType::Group => "group",
            ValueType::I8 => "i8",
            ValueType::I16 => "i16",
            ValueType::I32 => "i32",
            ValueType::I64 => "i64",
            ValueType::I128 => "i128",
            ValueType::U8 => "u8",
            ValueType::U16 => "u16",
            ValueType::U32 => "u32",
            ValueType::U64 => "u64",
            ValueType::U128 => "u128",
        }
    }
}

impl ByteOrder {
    /// The name of the method for the byte order.
    pub fn method(&self) -> (name: &'static str)
        ensures
            name@ == name_of_method(*self),
    {
        match self {
            ByteOrder::LittleEndian => "from_bytes_le",
            ByteOrder::BigEndian => "from_bytes_be",
        }
    }
}

/// The name under which the instruction for a type and a byte order is called.
pub fn core_name(value_type: ValueType, order: ByteOrder) -> (name: String)
    ensures
        name@ == instruction_name(value_type, order),
{
    String::from_str(value_type.name()).concat("_").concat(order.method())
}

/// What an error says.
pub open spec fn message_of(error: ConversionError) -> Seq<char> {
    match error {
        ConversionError::ArgumentCount { order, .. } => "illegal `"@ + name_of_method(order)
            + "` call, expected 1 argument"@,
        ConversionError::UnsupportedOperation { value_type, order } => "the type `"@ + name_of_type(
            value_type,
        ) + "` does not implement the "@ + name_of_method(order) + " method"@,
        ConversionError::NotBytes { value_type, order } => "illegal `"@ + name_of_method(order)
            + "` call, expected an array of bytes for the type `"@ + name_of_type(value_type)
            + "`"@,
        ConversionError::ByteWidth { value_type, order, .. } => "illegal `"@ + name_of_method(order)
            + "` call, wrong number of bytes for the type `"@ + name_of_type(value_type) + "`"@,
    }
}

impl ConversionError {
    /// What the error says: it names the method, and the type where the
    /// error depends on it.
    pub fn message(&self) -> (text: String)
        ensures
            text@ == message_of(*self),
    {
        match self {
            ConversionError::ArgumentCount { order, .. } => String::from_str("illegal `").concat(
                order.method(),
            ).concat("` call, expected 1 argument"),
            ConversionError::UnsupportedOperation { value_type, order } => String::from_str(
                "the type `",
            ).concat(value_type.name()).concat("` does not implement the ").concat(
                order.method(),
            ).concat(" method"),
            ConversionError::NotBytes { value_type, order } => String::from_str(
                "illegal `",
            ).concat(order.method()).concat(
                "` call, expected an array of bytes for the type `",
            ).concat(value_type.name()).concat("`"),
            ConversionError::ByteWidth { value_type, order, .. } => String::from_str(
                "illegal `",
            ).concat(order.method()).concat(
                "` call, wrong number of bytes for the type `",
            ).concat(value_type.name()).concat("`"),
        }
    }
}

/// Argument count. A call without exactly one argument fails with the
/// argument-count error, whatever the type and the byte order.
pub proof fn law_argument_count(
    value_type: ValueType,
    order: ByteOrder,
    arguments: Seq<Argument>,
)
    requires
        arguments.len() != 1,
        arguments.len() <= usize::MAX,
    ensures
        conversion(value_type, order, arguments) == Err::<Seq<u8>, ConversionError>(
            ConversionError::ArgumentCount { order, found: arguments.len() as usize },
        ),
{
}

/// Unsupported types. With one argument, whatever it is, `char` and `field`
/// are refused in both byte orders, with an error that names the type and
/// the byte order.
pub proof fn law_char_and_field_refused(
    value_type: ValueType,
    order: ByteOrder,
    arguments: Seq<Argument>,
)
    requires
        value_type == ValueType::Char || value_type == ValueType::Field,
        arguments.len() == 1,
    ensures
        conversion(value_type, order, arguments) == Err::<Seq<u8>, ConversionError>(
            ConversionError::UnsupportedOperation { value_type, order },
        ),
{
}

/// Exact widths. A supported type is made from one array of exactly as many
/// bytes as the type needs, and from nothing else.
pub proof fn law_exact_width(value_type: ValueType, order: ByteOrder, bytes: Vec<u8>)
    requires
        !refused_outright(value_type),
        !refused_after_width(value_type),
    ensures
        conversion(value_type, order, seq![Argument::Bytes(bytes)]) is Ok <==> bytes@.len()
            == byte_width(value_type),
        conversion(value_type, order, seq![Argument::Bytes(bytes)]) is Ok ==> conversion(
            value_type,
            order,
            seq![Argument::Bytes(bytes)],
        )->Ok_0 == bytes@,
{
}

} // verus!
