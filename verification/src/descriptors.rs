//! The descriptor set: the tagged records a type-descriptor blob decodes to,
//! the byte-level grammar each record follows, and the decoder that builds the
//! set while preserving positional identity.
use vstd::prelude::*;
use crate::encoding::{be16, be32, be128, lemma_parse_str_bounds, Input, spec_parse_str};
use crate::errors::{CodecError, DecodeError};
use crate::features::ProtocolVersion;

verus! {

/// A 128-bit type identity, read from 16 big-endian bytes.
#[derive(Debug, Clone, Copy, PartialEq, Eq, Hash, Structural)]
pub struct Uuid(pub u128);

impl Uuid {
    pub fn from_u128(v: u128) -> (r: Uuid)
        ensures
            r == Uuid(v),
    {
        Uuid(v)
    }
}

/// A 16-bit index into a descriptor set: how descriptors reference one another.
#[derive(Debug, Clone, Copy, PartialEq, Eq, Structural)]
pub struct TypePos(pub u16);

/// How many values a shape element carries.
#[derive(Debug, Clone, Copy, PartialEq, Eq, Structural)]
pub enum Cardinality {
    NoResult,
    AtMostOne,
    One,
    Many,
    AtLeastOne,
}

/// The cardinality a byte of the wire encoding stands for, if any.
pub open spec fn spec_cardinality_of(b: u8) -> Option<Cardinality> {
    if b == 0x6e {
        Some(Cardinality::NoResult)
    } else if b == 0x6f {
        Some(Cardinality::AtMostOne)
    } else if b == 0x41 {
        Some(Cardinality::One)
    } else if b == 0x6d {
        Some(Cardinality::Many)
    } else if b == 0x4d {
        Some(Cardinality::AtLeastOne)
    } else {
        None
    }
}

fn cardinality_from_u8(b: u8) -> (r: Option<Cardinality>)
    ensures
        r == spec_cardinality_of(b),
{
    if b == 0x6e {
        Some(Cardinality::NoResult)
    } else if b == 0x6f {
        Some(Cardinality::AtMostOne)
    } else if b == 0x41 {
        Some(Cardinality::One)
    } else if b == 0x6d {
        Some(Cardinality::Many)
    } else if b == 0x4d {
        Some(Cardinality::AtLeastOne)
    } else {
        None
    }
}

/// One record of a descriptor blob, discriminated by its tag byte.
#[derive(Debug, Clone, PartialEq, Eq)]
pub enum Descriptor {
    SetType(SetDescriptor),
    ObjectShape(ObjectShapeDescriptor),
    BaseScalar(BaseScalarTypeDescriptor),
    Scalar(ScalarTypeDescriptor),
    Tuple(TupleTypeDescriptor),
    NamedTuple(NamedTupleTypeDescriptor),
    Array(ArrayTypeDescriptor),
    Range(RangeTypeDescriptor),
    Enumeration(EnumerationTypeDescriptor),
    InputShape(InputShapeTypeDescriptor),
    TypeAnnotation(TypeAnnotationDescriptor),
}

#[derive(Debug, Clone, PartialEq, Eq)]
pub struct SetDescriptor {
    pub id: Uuid,
    pub type_pos: TypePos,
}

#[derive(Debug, Clone, PartialEq, Eq)]
pub struct ObjectShapeDescriptor {
    pub id: Uuid,
    pub elements: Vec<ShapeElement>,
}

#[derive(Debug, Clone, PartialEq, Eq)]
pub struct InputShapeTypeDescriptor {
    pub id: Uuid,
    pub elements: Vec<ShapeElement>,
}

/// One named field of an object or input shape.
#[derive(Debug, Clone, PartialEq, Eq)]
pub struct ShapeElement {
    pub flag_implicit: bool,
    pub flag_link_property: bool,
    pub flag_link: bool,
    pub cardinality: Option<Cardinality>,
    pub name: String,
    pub type_pos: TypePos,
}

#[derive(Debug, Clone, PartialEq, Eq)]
pub struct BaseScalarTypeDescriptor {
    pub id: Uuid,
}

#[derive(Debug, Clone, PartialEq, Eq)]
pub struct ScalarTypeDescriptor {
    pub id: Uuid,
    pub base_type_pos: TypePos,
}

#[derive(Debug, Clone, PartialEq, Eq)]
pub struct TupleTypeDescriptor {
    pub id: Uuid,
    pub element_types: Vec<TypePos>,
}

#[derive(Debug, Clone, PartialEq, Eq)]
pub struct NamedTupleTypeDescriptor {
    pub id: Uuid,
    pub elements: Vec<TupleElement>,
}

/// One named field of a named tuple.
#[derive(Debug, Clone, PartialEq, Eq)]
pub struct TupleElement {
    pub name: String,
    pub type_pos: TypePos,
}

#[derive(Debug, Clone, PartialEq, Eq)]
pub struct ArrayTypeDescriptor {
    pub id: Uuid,
    pub type_pos: TypePos,
    /// Each dimension: `None` for unbounded, `Some(n)` for a fixed size.
    pub dimensions: Vec<Option<u32>>,
}

#[derive(Debug, Clone, PartialEq, Eq)]
pub struct RangeTypeDescriptor {
    pub id: Uuid,
    pub type_pos: TypePos,
}

#[derive(Debug, Clone, PartialEq, Eq)]
pub struct EnumerationTypeDescriptor {
    pub id: Uuid,
    pub members: Vec<String>,
}

/// Descriptive metadata; consumed during decoding but never appended to the
/// descriptor array, so it occupies no position.
#[derive(Debug, Clone, PartialEq, Eq)]
pub struct TypeAnnotationDescriptor {
    pub annotated_type: u8,
    pub id: Uuid,
    pub annotation: String,
}

/// The mathematical value of a shape element: its name as a character
/// sequence, everything else as the executable record holds it.
pub ghost struct ShapeElementV {
    pub flag_implicit: bool,
    pub flag_link_property: bool,
    pub flag_link: bool,
    pub cardinality: Option<Cardinality>,
    pub name: Seq<char>,
    pub type_pos: TypePos,
}

impl View for ShapeElement {
    type V = ShapeElementV;

    open spec fn view(&self) -> ShapeElementV {
        ShapeElementV {
            flag_implicit: self.flag_implicit,
            flag_link_property: self.flag_link_property,
            flag_link: self.flag_link,
            cardinality: self.cardinality,
            name: self.name@,
            type_pos: self.type_pos,
        }
    }
}

/// The mathematical value of a named-tuple element.
pub ghost struct TupleElementV {
    pub name: Seq<char>,
    pub type_pos: TypePos,
}

impl View for TupleElement {
    type V = TupleElementV;

    open spec fn view(&self) -> TupleElementV {
        TupleElementV { name: self.name@, type_pos: self.type_pos }
    }
}

/// The mathematical value of a descriptor record.
pub ghost enum DescriptorV {
    SetType { id: Uuid, type_pos: TypePos },
    ObjectShape { id: Uuid, elements: Seq<ShapeElementV> },
    BaseScalar { id: Uuid },
    Scalar { id: Uuid, base_type_pos: TypePos },
    Tuple { id: Uuid, element_types: Seq<TypePos> },
    NamedTuple { id: Uuid, elements: Seq<TupleElementV> },
    Array { id: Uuid, type_pos: TypePos, dimensions: Seq<Option<u32>> },
    Range { id: Uuid, type_pos: TypePos },
    Enumeration { id: Uuid, members: Seq<Seq<char>> },
    InputShape { id: Uuid, elements: Seq<ShapeElementV> },
    TypeAnnotation { annotated_type: u8, id: Uuid, annotation: Seq<char> },
}

impl View for SetDescriptor {
    type V = DescriptorV;

    open spec fn view(&self) -> DescriptorV {
        DescriptorV::SetType { id: self.id, type_pos: self.type_pos }
    }
}

impl View for ObjectShapeDescriptor {
    type V = DescriptorV;

    open spec fn view(&self) -> DescriptorV {
        DescriptorV::ObjectShape {
            id: self.id,
            elements: self.elements@.map_values(|e: ShapeElement| e@),
        }
    }
}

impl View for BaseScalarTypeDescriptor {
    type V = DescriptorV;

    open spec fn view(&self) -> DescriptorV {
        DescriptorV::BaseScalar { id: self.id }
    }
}

impl View for ScalarTypeDescriptor {
    type V = DescriptorV;

    open spec fn view(&self) -> DescriptorV {
        DescriptorV::Scalar { id: self.id, base_type_pos: self.base_type_pos }
    }
}

impl View for TupleTypeDescriptor {
    type V = DescriptorV;

    open spec fn view(&self) -> DescriptorV {
        DescriptorV::Tuple { id: self.id, element_types: self.element_types@ }
    }
}

impl View for NamedTupleTypeDescriptor {
    type V = DescriptorV;

    open spec fn view(&self) -> DescriptorV {
        DescriptorV::NamedTuple {
            id: self.id,
            elements: self.elements@.map_values(|e: TupleElement| e@),
        }
    }
}

impl View for ArrayTypeDescriptor {
    type V = DescriptorV;

    open spec fn view(&self) -> DescriptorV {
        DescriptorV::Array { id: self.id, type_pos: self.type_pos, dimensions: self.dimensions@ }
    }
}

impl View for RangeTypeDescriptor {
    type V = DescriptorV;

    open spec fn view(&self) -> DescriptorV {
        DescriptorV::Range { id: self.id, type_pos: self.type_pos }
    }
}

impl View for EnumerationTypeDescriptor {
    type V = DescriptorV;

    open spec fn view(&self) -> DescriptorV {
        DescriptorV::Enumeration { id: self.id, members: self.members@.map_values(|s: String| s@) }
    }
}

impl View for InputShapeTypeDescriptor {
    type V = DescriptorV;

    open spec fn view(&self) -> DescriptorV {
        DescriptorV::InputShape {
            id: self.id,
            elements: self.elements@.map_values(|e: ShapeElement| e@),
        }
    }
}

impl View for TypeAnnotationDescriptor {
    type V = DescriptorV;

    open spec fn view(&self) -> DescriptorV {
        DescriptorV::TypeAnnotation {
            annotated_type: self.annotated_type,
            id: self.id,
            annotation: self.annotation@,
        }
    }
}

impl View for Descriptor {
    type V = DescriptorV;

    open spec fn view(&self) -> DescriptorV {
        match self {
            Descriptor::SetType(d) => d@,
            Descriptor::ObjectShape(d) => d@,
            Descriptor::BaseScalar(d) => d@,
            Descriptor::Scalar(d) => d@,
            Descriptor::Tuple(d) => d@,
            Descriptor::NamedTuple(d) => d@,
            Descriptor::Array(d) => d@,
            Descriptor::Range(d) => d@,
            Descriptor::Enumeration(d) => d@,
            Descriptor::InputShape(d) => d@,
            Descriptor::TypeAnnotation(d) => d@,
        }
    }
}

impl DescriptorV {
    /// The type identity every descriptor variant carries.
    pub open spec fn spec_id(self) -> Uuid {
        match self {
            DescriptorV::SetType { id, .. } => id,
            DescriptorV::ObjectShape { id, .. } => id,
            DescriptorV::BaseScalar { id } => id,
            DescriptorV::Scalar { id, .. } => id,
            DescriptorV::Tuple { id, .. } => id,
            DescriptorV::NamedTuple { id, .. } => id,
            DescriptorV::Array { id, .. } => id,
            DescriptorV::Range { id, .. } => id,
            DescriptorV::Enumeration { id, .. } => id,
            DescriptorV::InputShape { id, .. } => id,
            DescriptorV::TypeAnnotation { id, .. } => id,
        }
    }
}

/// The UUID at offset `pos`: 16 big-endian bytes.
pub open spec fn spec_uuid_at(b: Seq<u8>, pos: int) -> Uuid {
    Uuid(be128(b, pos))
}

/// A Set descriptor's payload: id, then the element type's position.
pub open spec fn spec_parse_set(b: Seq<u8>, pos: int) -> Result<(DescriptorV, int), DecodeError> {
    if b.len() - pos < 19 {
        Err(DecodeError::Underflow)
    } else {
        Ok(
            (
                DescriptorV::SetType {
                    id: spec_uuid_at(b, pos + 1),
                    type_pos: TypePos(be16(b, pos + 17)),
                },
                pos + 19,
            ),
        )
    }
}

/// A base scalar descriptor's payload: the id alone.
pub open spec fn spec_parse_base_scalar(b: Seq<u8>, pos: int) -> Result<
    (DescriptorV, int),
    DecodeError,
> {
    if b.len() - pos < 17 {
        Err(DecodeError::Underflow)
    } else {
        Ok((DescriptorV::BaseScalar { id: spec_uuid_at(b, pos + 1) }, pos + 17))
    }
}

/// A scalar descriptor's payload: id, then the base type's position.
pub open spec fn spec_parse_scalar(b: Seq<u8>, pos: int) -> Result<
    (DescriptorV, int),
    DecodeError,
> {
    if b.len() - pos < 19 {
        Err(DecodeError::Underflow)
    } else {
        Ok(
            (
                DescriptorV::Scalar {
                    id: spec_uuid_at(b, pos + 1),
                    base_type_pos: TypePos(be16(b, pos + 17)),
                },
                pos + 19,
            ),
        )
    }
}

/// A range descriptor's payload: id, then the point type's position.
pub open spec fn spec_parse_range(b: Seq<u8>, pos: int) -> Result<
    (DescriptorV, int),
    DecodeError,
> {
    if b.len() - pos < 19 {
        Err(DecodeError::Underflow)
    } else {
        Ok(
            (
                DescriptorV::Range {
                    id: spec_uuid_at(b, pos + 1),
                    type_pos: TypePos(be16(b, pos + 17)),
                },
                pos + 19,
            ),
        )
    }
}

/// A tuple descriptor's payload: id, a 16-bit count, then that many
/// element-type positions.
pub open spec fn spec_parse_tuple(b: Seq<u8>, pos: int) -> Result<
    (DescriptorV, int),
    DecodeError,
> {
    if b.len() - pos < 19 {
        Err(DecodeError::Underflow)
    } else {
        let count = be16(b, pos + 17) as int;
        if b.len() - (pos + 19) < 2 * count {
            Err(DecodeError::Underflow)
        } else {
            Ok(
                (
                    DescriptorV::Tuple {
                        id: spec_uuid_at(b, pos + 1),
                        element_types: Seq::new(
                            count as nat,
                            |i: int| TypePos(be16(b, pos + 19 + 2 * i)),
                        ),
                    },
                    pos + 19 + 2 * count,
                ),
            )
        }
    }
}

/// An array dimension is -1 (unbounded) or strictly positive; read as an
/// unsigned big-endian word those are `u32::MAX` and `1..=i32::MAX`.
pub open spec fn spec_valid_dim(v: u32) -> bool {
    v == 0xFFFF_FFFFu32 || (1 <= v <= 0x7FFF_FFFFu32)
}

pub open spec fn spec_dim_of(v: u32) -> Option<u32> {
    if v == 0xFFFF_FFFFu32 {
        None
    } else {
        Some(v)
    }
}

/// An array descriptor's payload: id, element type position, a 16-bit
/// dimension count, then that many 32-bit dimensions.
pub open spec fn spec_parse_array(b: Seq<u8>, pos: int) -> Result<
    (DescriptorV, int),
    DecodeError,
> {
    if b.len() - pos < 21 {
        Err(DecodeError::Underflow)
    } else {
        let count = be16(b, pos + 19) as int;
        if b.len() - (pos + 21) < 4 * count {
            Err(DecodeError::Underflow)
        } else if exists|i: int|
            0 <= i < count && !spec_valid_dim(#[trigger] be32(b, pos + 21 + 4 * i)) {
            Err(DecodeError::InvalidArrayShape)
        } else {
            Ok(
                (
                    DescriptorV::Array {
                        id: spec_uuid_at(b, pos + 1),
                        type_pos: TypePos(be16(b, pos + 17)),
                        dimensions: Seq::new(
                            count as nat,
                            |i: int| spec_dim_of(be32(b, pos + 21 + 4 * i)),
                        ),
                    },
                    pos + 21 + 4 * count,
                ),
            )
        }
    }
}

/// A shape element's name and type position, after its flag word and optional
/// cardinality byte.
pub open spec fn spec_parse_shape_element_rest(
    b: Seq<u8>,
    pos: int,
    flags: u32,
    cardinality: Option<Cardinality>,
) -> Result<(ShapeElementV, int), DecodeError> {
    match spec_parse_str(b, pos) {
        Err(e) => Err(e),
        Ok((name, p2)) => {
            if b.len() - p2 < 2 {
                Err(DecodeError::Underflow)
            } else {
                Ok(
                    (
                        ShapeElementV {
                            flag_implicit: flags & 0b001 != 0,
                            flag_link_property: flags & 0b010 != 0,
                            flag_link: flags & 0b100 != 0,
                            cardinality,
                            name,
                            type_pos: TypePos(be16(b, p2)),
                        },
                        p2 + 2,
                    ),
                )
            }
        },
    }
}

/// One shape element: from protocol (0, 11) on a 32-bit flag word and a
/// cardinality byte, before that a single flag byte and no cardinality; then
/// a length-prefixed name and a type position.
pub open spec fn spec_parse_shape_element(proto: ProtocolVersion, b: Seq<u8>, pos: int) -> Result<
    (ShapeElementV, int),
    DecodeError,
> {
    if b.len() - pos < 7 {
        Err(DecodeError::Underflow)
    } else if proto.spec_is_at_least(0, 11) {
        let cb = b[pos + 4];
        match spec_cardinality_of(cb) {
            None => Err(DecodeError::InvalidCardinality { cardinality: cb }),
            Some(card) => spec_parse_shape_element_rest(b, pos + 5, be32(b, pos), Some(card)),
        }
    } else {
        spec_parse_shape_element_rest(b, pos + 1, b[pos] as u32, None)
    }
}

/// `count` consecutive shape elements.
pub open spec fn spec_parse_shape_elements(
    proto: ProtocolVersion,
    b: Seq<u8>,
    pos: int,
    count: nat,
) -> Result<(Seq<ShapeElementV>, int), DecodeError>
    decreases count,
{
    if count == 0 {
        Ok((Seq::empty(), pos))
    } else {
        match spec_parse_shape_element(proto, b, pos) {
            Err(e) => Err(e),
            Ok((e0, p2)) => match spec_parse_shape_elements(proto, b, p2, (count - 1) as nat) {
                Err(e) => Err(e),
                Ok((rest, p3)) => Ok((seq![e0] + rest, p3)),
            },
        }
    }
}

/// An object or input shape's payload: id, a 16-bit count, then that many
/// shape elements.
pub open spec fn spec_parse_shape_payload(proto: ProtocolVersion, b: Seq<u8>, pos: int) -> Result<
    (Uuid, Seq<ShapeElementV>, int),
    DecodeError,
> {
    if b.len() - pos < 19 {
        Err(DecodeError::Underflow)
    } else {
        match spec_parse_shape_elements(proto, b, pos + 19, be16(b, pos + 17) as nat) {
            Err(e) => Err(e),
            Ok((elems, p)) => Ok((spec_uuid_at(b, pos + 1), elems, p)),
        }
    }
}

pub open spec fn spec_parse_object_shape(proto: ProtocolVersion, b: Seq<u8>, pos: int) -> Result<
    (DescriptorV, int),
    DecodeError,
> {
    match spec_parse_shape_payload(proto, b, pos) {
        Err(e) => Err(e),
        Ok((id, elems, p)) => Ok((DescriptorV::ObjectShape { id, elements: elems }, p)),
    }
}

pub open spec fn spec_parse_input_shape(proto: ProtocolVersion, b: Seq<u8>, pos: int) -> Result<
    (DescriptorV, int),
    DecodeError,
> {
    match spec_parse_shape_payload(proto, b, pos) {
        Err(e) => Err(e),
        Ok((id, elems, p)) => Ok((DescriptorV::InputShape { id, elements: elems }, p)),
    }
}

/// One named-tuple element: a length-prefixed name, then a type position.
pub open spec fn spec_parse_tuple_element(b: Seq<u8>, pos: int) -> Result<
    (TupleElementV, int),
    DecodeError,
> {
    match spec_parse_str(b, pos) {
        Err(e) => Err(e),
        Ok((name, p2)) => {
            if b.len() - p2 < 2 {
                Err(DecodeError::Underflow)
            } else {
                Ok((TupleElementV { name, type_pos: TypePos(be16(b, p2)) }, p2 + 2))
            }
        },
    }
}

/// `count` consecutive named-tuple elements.
pub open spec fn spec_parse_tuple_elements(b: Seq<u8>, pos: int, count: nat) -> Result<
    (Seq<TupleElementV>, int),
    DecodeError,
>
    decreases count,
{
    if count == 0 {
        Ok((Seq::empty(), pos))
    } else {
        match spec_parse_tuple_element(b, pos) {
            Err(e) => Err(e),
            Ok((e0, p2)) => match spec_parse_tuple_elements(b, p2, (count - 1) as nat) {
                Err(e) => Err(e),
                Ok((rest, p3)) => Ok((seq![e0] + rest, p3)),
            },
        }
    }
}

/// A named-tuple descriptor's payload: id, a 16-bit count, then that many
/// named elements.
pub open spec fn spec_parse_named_tuple(b: Seq<u8>, pos: int) -> Result<
    (DescriptorV, int),
    DecodeError,
> {
    if b.len() - pos < 19 {
        Err(DecodeError::Underflow)
    } else {
        match spec_parse_tuple_elements(b, pos + 19, be16(b, pos + 17) as nat) {
            Err(e) => Err(e),
            Ok((elems, p)) => Ok(
                (DescriptorV::NamedTuple { id: spec_uuid_at(b, pos + 1), elements: elems }, p),
            ),
        }
    }
}

/// `count` consecutive length-prefixed strings.
pub open spec fn spec_parse_strings(b: Seq<u8>, pos: int, count: nat) -> Result<
    (Seq<Seq<char>>, int),
    DecodeError,
>
    decreases count,
{
    if count == 0 {
        Ok((Seq::empty(), pos))
    } else {
        match spec_parse_str(b, pos) {
            Err(e) => Err(e),
            Ok((s0, p2)) => match spec_parse_strings(b, p2, (count - 1) as nat) {
                Err(e) => Err(e),
                Ok((rest, p3)) => Ok((seq![s0] + rest, p3)),
            },
        }
    }
}

/// An enumeration descriptor's payload: id, a 16-bit count, then that many
/// member names.
pub open spec fn spec_parse_enumeration(b: Seq<u8>, pos: int) -> Result<
    (DescriptorV, int),
    DecodeError,
> {
    if b.len() - pos < 19 {
        Err(DecodeError::Underflow)
    } else {
        match spec_parse_strings(b, pos + 19, be16(b, pos + 17) as nat) {
            Err(e) => Err(e),
            Ok((members, p)) => Ok(
                (DescriptorV::Enumeration { id: spec_uuid_at(b, pos + 1), members }, p),
            ),
        }
    }
}

/// A type annotation: its tag byte, id, and a length-prefixed annotation.
pub open spec fn spec_parse_annotation(b: Seq<u8>, pos: int) -> Result<
    (DescriptorV, int),
    DecodeError,
> {
    if b.len() - pos < 21 {
        Err(DecodeError::Underflow)
    } else {
        match spec_parse_str(b, pos + 17) {
            Err(e) => Err(e),
            Ok((ann, p)) => Ok(
                (
                    DescriptorV::TypeAnnotation {
                        annotated_type: b[pos],
                        id: spec_uuid_at(b, pos + 1),
                        annotation: ann,
                    },
                    p,
                ),
            ),
        }
    }
}

/// One descriptor record: the tag byte selects the variant grammar; tags in
/// `[10, 0x7E]` are invalid, tags of `0x7F` and above are annotations.
pub open spec fn spec_parse_descriptor(proto: ProtocolVersion, b: Seq<u8>, pos: int) -> Result<
    (DescriptorV, int),
    DecodeError,
> {
    if b.len() - pos < 1 {
        Err(DecodeError::Underflow)
    } else {
        let tag = b[pos];
        if tag == 0 {
            spec_parse_set(b, pos)
        } else if tag == 1 {
            spec_parse_object_shape(proto, b, pos)
        } else if tag == 2 {
            spec_parse_base_scalar(b, pos)
        } else if tag == 3 {
            spec_parse_scalar(b, pos)
        } else if tag == 4 {
            spec_parse_tuple(b, pos)
        } else if tag == 5 {
            spec_parse_named_tuple(b, pos)
        } else if tag == 6 {
            spec_parse_array(b, pos)
        } else if tag == 7 {
            spec_parse_enumeration(b, pos)
        } else if tag == 8 {
            spec_parse_input_shape(proto, b, pos)
        } else if tag == 9 {
            spec_parse_range(b, pos)
        } else if tag >= 0x7F {
            spec_parse_annotation(b, pos)
        } else {
            Err(DecodeError::InvalidTypeDescriptor { descriptor: tag })
        }
    }
}

pub proof fn lemma_parse_shape_element_bounds(proto: ProtocolVersion, b: Seq<u8>, pos: int)
    ensures
        spec_parse_shape_element(proto, b, pos) matches Ok((e, end)) ==> pos < end <= b.len(),
{
    if b.len() - pos >= 7 {
        if proto.spec_is_at_least(0, 11) {
            lemma_parse_str_bounds(b, pos + 5);
        } else {
            lemma_parse_str_bounds(b, pos + 1);
        }
    }
}

pub proof fn lemma_parse_shape_elements_bounds(
    proto: ProtocolVersion,
    b: Seq<u8>,
    pos: int,
    count: nat,
)
    ensures
        spec_parse_shape_elements(proto, b, pos, count) matches Ok((s, end)) ==> pos <= end
            <= b.len() || pos > b.len(),
        spec_parse_shape_elements(proto, b, pos, count) matches Ok((s, end)) ==> s.len() == count,
    decreases count,
{
    if count > 0 {
        lemma_parse_shape_element_bounds(proto, b, pos);
        match spec_parse_shape_element(proto, b, pos) {
            Ok((e0, p2)) => {
                lemma_parse_shape_elements_bounds(proto, b, p2, (count - 1) as nat);
            },
            Err(..) => {},
        }
    }
}

pub proof fn lemma_parse_tuple_element_bounds(b: Seq<u8>, pos: int)
    ensures
        spec_parse_tuple_element(b, pos) matches Ok((e, end)) ==> pos < end <= b.len(),
{
    lemma_parse_str_bounds(b, pos);
}

pub proof fn lemma_parse_tuple_elements_bounds(b: Seq<u8>, pos: int, count: nat)
    ensures
        spec_parse_tuple_elements(b, pos, count) matches Ok((s, end)) ==> pos <= end <= b.len()
            || pos > b.len(),
        spec_parse_tuple_elements(b, pos, count) matches Ok((s, end)) ==> s.len() == count,
    decreases count,
{
    if count > 0 {
        lemma_parse_tuple_element_bounds(b, pos);
        match spec_parse_tuple_element(b, pos) {
            Ok((e0, p2)) => {
                lemma_parse_tuple_elements_bounds(b, p2, (count - 1) as nat);
            },
            Err(..) => {},
        }
    }
}

pub proof fn lemma_parse_strings_bounds(b: Seq<u8>, pos: int, count: nat)
    ensures
        spec_parse_strings(b, pos, count) matches Ok((s, end)) ==> pos <= end <= b.len() || pos
            > b.len(),
        spec_parse_strings(b, pos, count) matches Ok((s, end)) ==> s.len() == count,
    decreases count,
{
    if count > 0 {
        lemma_parse_str_bounds(b, pos);
        match spec_parse_str(b, pos) {
            Ok((s0, p2)) => {
                lemma_parse_strings_bounds(b, p2, (count - 1) as nat);
            },
            Err(..) => {},
        }
    }
}

/// A record that parses successfully consumes at least its tag byte and ends
/// within the buffer.
pub proof fn lemma_parse_descriptor_bounds(proto: ProtocolVersion, b: Seq<u8>, pos: int)
    ensures
        spec_parse_descriptor(proto, b, pos) matches Ok((d, end)) ==> pos < end <= b.len(),
{
    if b.len() - pos >= 1 {
        let tag = b[pos];
        if tag == 1 || tag == 8 {
            if b.len() - pos >= 19 {
                lemma_parse_shape_elements_bounds(proto, b, pos + 19, be16(b, pos + 17) as nat);
            }
        } else if tag == 5 {
            if b.len() - pos >= 19 {
                lemma_parse_tuple_elements_bounds(b, pos + 19, be16(b, pos + 17) as nat);
            }
        } else if tag == 7 {
            if b.len() - pos >= 19 {
                lemma_parse_strings_bounds(b, pos + 19, be16(b, pos + 17) as nat);
            }
        } else if tag >= 0x7F {
            lemma_parse_str_bounds(b, pos + 17);
        }
    }
}

/// The whole stream: records parsed back to back until the buffer is
/// exhausted, annotations consumed but not kept.
pub open spec fn spec_parse_stream(proto: ProtocolVersion, b: Seq<u8>, pos: int) -> Result<
    Seq<DescriptorV>,
    DecodeError,
>
    decreases b.len() - pos,
        when 0 <= pos
        via spec_parse_stream_decreases
{
    if pos >= b.len() {
        Ok(Seq::empty())
    } else {
        match spec_parse_descriptor(proto, b, pos) {
            Err(e) => Err(e),
            Ok((d, end)) => match spec_parse_stream(proto, b, end) {
                Err(e) => Err(e),
                Ok(rest) => if d matches DescriptorV::TypeAnnotation { .. } {
                    Ok(rest)
                } else {
                    Ok(seq![d] + rest)
                },
            },
        }
    }
}

#[via_fn]
proof fn spec_parse_stream_decreases(proto: ProtocolVersion, b: Seq<u8>, pos: int) {
    lemma_parse_descriptor_bounds(proto, b, pos);
}

impl SetDescriptor {
    pub fn decode(buf: &mut Input) -> (r: Result<SetDescriptor, DecodeError>)
        requires
            old(buf).wf(),
        ensures
            final(buf).wf(),
            final(buf).proto == old(buf).proto,
            final(buf).bytes() == old(buf).bytes(),
            match spec_parse_set(old(buf).bytes(), old(buf).pos as int) {
                Ok((d, end)) => r matches Ok(v) && v@ == d && final(buf).pos == end,
                Err(e) => r == Err::<SetDescriptor, DecodeError>(e),
            },
    {
        if buf.remaining() < 19 {
            return Err(DecodeError::Underflow);
        }
        let _tag: u8 = buf.get_u8();
        let id = Uuid(buf.get_u128());
        let type_pos = TypePos(buf.get_u16());
        Ok(SetDescriptor { id, type_pos })
    }
}

impl BaseScalarTypeDescriptor {
    /// The record has no fixed header beyond the tag, so only the tag byte
    /// the dispatch already peeked is demanded up front.
    pub fn decode(buf: &mut Input) -> (r: Result<BaseScalarTypeDescriptor, DecodeError>)
        requires
            old(buf).wf(),
            old(buf).remaining_spec() >= 1,
        ensures
            final(buf).wf(),
            final(buf).proto == old(buf).proto,
            final(buf).bytes() == old(buf).bytes(),
            match spec_parse_base_scalar(old(buf).bytes(), old(buf).pos as int) {
                Ok((d, end)) => r matches Ok(v) && v@ == d && final(buf).pos == end,
                Err(e) => r == Err::<BaseScalarTypeDescriptor, DecodeError>(e),
            },
    {
        let _tag: u8 = buf.get_u8();
        if buf.remaining() < 16 {
            return Err(DecodeError::Underflow);
        }
        let id = Uuid(buf.get_u128());
        Ok(BaseScalarTypeDescriptor { id })
    }
}

impl ScalarTypeDescriptor {
    pub fn decode(buf: &mut Input) -> (r: Result<ScalarTypeDescriptor, DecodeError>)
        requires
            old(buf).wf(),
        ensures
            final(buf).wf(),
            final(buf).proto == old(buf).proto,
            final(buf).bytes() == old(buf).bytes(),
            match spec_parse_scalar(old(buf).bytes(), old(buf).pos as int) {
                Ok((d, end)) => r matches Ok(v) && v@ == d && final(buf).pos == end,
                Err(e) => r == Err::<ScalarTypeDescriptor, DecodeError>(e),
            },
    {
        if buf.remaining() < 19 {
            return Err(DecodeError::Underflow);
        }
        let _tag: u8 = buf.get_u8();
        let id = Uuid(buf.get_u128());
        let base_type_pos = TypePos(buf.get_u16());
        Ok(ScalarTypeDescriptor { id, base_type_pos })
    }
}

impl RangeTypeDescriptor {
    pub fn decode(buf: &mut Input) -> (r: Result<RangeTypeDescriptor, DecodeError>)
        requires
            old(buf).wf(),
        ensures
            final(buf).wf(),
            final(buf).proto == old(buf).proto,
            final(buf).bytes() == old(buf).bytes(),
            match spec_parse_range(old(buf).bytes(), old(buf).pos as int) {
                Ok((d, end)) => r matches Ok(v) && v@ == d && final(buf).pos == end,
                Err(e) => r == Err::<RangeTypeDescriptor, DecodeError>(e),
            },
    {
        if buf.remaining() < 19 {
            return Err(DecodeError::Underflow);
        }
        let _tag: u8 = buf.get_u8();
        let id = Uuid(buf.get_u128());
        let type_pos = TypePos(buf.get_u16());
        Ok(RangeTypeDescriptor { id, type_pos })
    }
}

impl TupleTypeDescriptor {
    pub fn decode(buf: &mut Input) -> (r: Result<TupleTypeDescriptor, DecodeError>)
        requires
            old(buf).wf(),
        ensures
            final(buf).wf(),
            final(buf).proto == old(buf).proto,
            final(buf).bytes() == old(buf).bytes(),
            match spec_parse_tuple(old(buf).bytes(), old(buf).pos as int) {
                Ok((d, end)) => r matches Ok(v) && v@ == d && final(buf).pos == end,
                Err(e) => r == Err::<TupleTypeDescriptor, DecodeError>(e),
            },
    {
        if buf.remaining() < 19 {
            return Err(DecodeError::Underflow);
        }
        let ghost b = buf.bytes();
        let _tag: u8 = buf.get_u8();
        let id = Uuid(buf.get_u128());
        let el_count = buf.get_u16();
        if buf.remaining() < 2 * (el_count as usize) {
            return Err(DecodeError::Underflow);
        }
        let ghost base = buf.pos as int;
        let mut element_types: Vec<TypePos> = Vec::new();
        let mut i: usize = 0;
        while i < el_count as usize
            invariant
                buf.wf(),
                buf.proto == old(buf).proto,
                buf.bytes() == b,
                i <= el_count,
                buf.pos == base + 2 * i,
                base + 2 * (el_count as int) <= b.len(),
                element_types@.len() == i,
                forall|j: int|
                    0 <= j < i ==> element_types@[j] == TypePos(be16(b, base + 2 * j)),
            decreases el_count - i,
        {
            let tp = buf.get_u16();
            element_types.push(TypePos(tp));
            i = i + 1;
        }
        proof {
            assert(element_types@ =~= Seq::new(
                el_count as nat,
                |k: int| TypePos(be16(b, base + 2 * k)),
            ));
        }
        Ok(TupleTypeDescriptor { id, element_types })
    }
}

impl ArrayTypeDescriptor {
    #[verifier::loop_isolation(false)]
    pub fn decode(buf: &mut Input) -> (r: Result<ArrayTypeDescriptor, DecodeError>)
        requires
            old(buf).wf(),
        ensures
            final(buf).wf(),
            final(buf).proto == old(buf).proto,
            final(buf).bytes() == old(buf).bytes(),
            match spec_parse_array(old(buf).bytes(), old(buf).pos as int) {
                Ok((d, end)) => r matches Ok(v) && v@ == d && final(buf).pos == end,
                Err(e) => r == Err::<ArrayTypeDescriptor, DecodeError>(e),
            },
    {
        if buf.remaining() < 21 {
            return Err(DecodeError::Underflow);
        }
        let ghost b = buf.bytes();
        let _tag: u8 = buf.get_u8();
        let id = Uuid(buf.get_u128());
        let type_pos = TypePos(buf.get_u16());
        let dim_count = buf.get_u16();
        if buf.remaining() < 4 * (dim_count as usize) {
            return Err(DecodeError::Underflow);
        }
        let ghost base = buf.pos as int;
        let mut dimensions: Vec<Option<u32>> = Vec::new();
        let mut i: usize = 0;
        while i < dim_count as usize
            invariant
                buf.wf(),
                buf.proto == old(buf).proto,
                buf.bytes() == b,
                i <= dim_count,
                buf.pos == base + 4 * i,
                base + 4 * (dim_count as int) <= b.len(),
                dimensions@.len() == i,
                forall|j: int|
                    0 <= j < i ==> spec_valid_dim(#[trigger] be32(b, base + 4 * j))
                        && dimensions@[j] == spec_dim_of(be32(b, base + 4 * j)),
            decreases dim_count - i,
        {
            let v = buf.get_u32();
            if v == 0xFFFF_FFFFu32 {
                dimensions.push(None);
            } else if 1 <= v && v <= 0x7FFF_FFFFu32 {
                dimensions.push(Some(v));
            } else {
                proof {
                    assert(!spec_valid_dim(be32(b, base + 4 * i)));
                }
                return Err(DecodeError::InvalidArrayShape);
            }
            i = i + 1;
        }
        proof {
            assert(forall|k: int|
                0 <= k < dim_count ==> spec_valid_dim(#[trigger] be32(b, base + 4 * k)));
            assert(dimensions@ =~= Seq::new(
                dim_count as nat,
                |k: int| spec_dim_of(be32(b, base + 4 * k)),
            ));
        }
        Ok(ArrayTypeDescriptor { id, type_pos, dimensions })
    }
}

impl ShapeElement {
    pub fn decode(buf: &mut Input) -> (r: Result<ShapeElement, DecodeError>)
        requires
            old(buf).wf(),
        ensures
            final(buf).wf(),
            final(buf).proto == old(buf).proto,
            final(buf).bytes() == old(buf).bytes(),
            match spec_parse_shape_element(
                old(buf).proto,
                old(buf).bytes(),
                old(buf).pos as int,
            ) {
                Ok((e, end)) => r matches Ok(v) && v@ == e && final(buf).pos == end,
                Err(e) => r == Err::<ShapeElement, DecodeError>(e),
            },
    {
        if buf.remaining() < 7 {
            return Err(DecodeError::Underflow);
        }
        let at_least_0_11 = buf.proto.is_at_least(0, 11);
        let (flags, cardinality): (u32, Option<Cardinality>) = if at_least_0_11 {
            let f = buf.get_u32();
            let cb = buf.get_u8();
            match cardinality_from_u8(cb) {
                Some(c) => (f, Some(c)),
                None => {
                    return Err(DecodeError::InvalidCardinality { cardinality: cb });
                },
            }
        } else {
            (buf.get_u8() as u32, None)
        };
        let name = match buf.get_str() {
            Ok(s) => s,
            Err(e) => {
                return Err(e);
            },
        };
        if buf.remaining() < 2 {
            return Err(DecodeError::Underflow);
        }
        let type_pos = TypePos(buf.get_u16());
        Ok(
            ShapeElement {
                flag_implicit: flags & 0b001 != 0,
                flag_link_property: flags & 0b010 != 0,
                flag_link: flags & 0b100 != 0,
                cardinality,
                name,
                type_pos,
            },
        )
    }
}

#[verifier::loop_isolation(false)]
fn decode_shape_elements(buf: &mut Input, count: u16) -> (r: Result<Vec<ShapeElement>, DecodeError>)
    requires
        old(buf).wf(),
    ensures
        final(buf).wf(),
        final(buf).proto == old(buf).proto,
        final(buf).bytes() == old(buf).bytes(),
        match spec_parse_shape_elements(
            old(buf).proto,
            old(buf).bytes(),
            old(buf).pos as int,
            count as nat,
        ) {
            Ok((s, end)) => r matches Ok(v) && v@.map_values(|e: ShapeElement| e@) == s
                && final(buf).pos == end,
            Err(e) => r == Err::<Vec<ShapeElement>, DecodeError>(e),
        },
{
    let ghost proto0 = buf.proto;
    let ghost b = buf.bytes();
    let ghost start = buf.pos as int;
    let mut elements: Vec<ShapeElement> = Vec::new();
    let mut i: u16 = 0;
    proof {
        match spec_parse_shape_elements(proto0, b, start, count as nat) {
            Ok((s, end)) => {
                assert(elements@.map_values(|e: ShapeElement| e@) + s =~= s);
            },
            Err(..) => {},
        }
    }
    while i < count
        invariant
            buf.wf(),
            buf.proto == proto0,
            buf.bytes() == b,
            i <= count,
            match spec_parse_shape_elements(proto0, b, buf.pos as int, (count - i) as nat) {
                Ok((s, end)) => spec_parse_shape_elements(proto0, b, start, count as nat) == Ok::<
                    (Seq<ShapeElementV>, int),
                    DecodeError,
                >((elements@.map_values(|e: ShapeElement| e@) + s, end)),
                Err(e) => spec_parse_shape_elements(proto0, b, start, count as nat) == Err::<
                    (Seq<ShapeElementV>, int),
                    DecodeError,
                >(e),
            },
        decreases count - i,
    {
        let ghost prev = elements@;
        let ghost pos_cur = buf.pos as int;
        match ShapeElement::decode(buf) {
            Err(e) => {
                return Err(e);
            },
            Ok(el) => {
                proof {
                    match spec_parse_shape_elements(proto0, b, buf.pos as int, (count - i - 1) as nat) {
                        Ok((rest, p3)) => {
                            assert(prev.map_values(|e: ShapeElement| e@) + (seq![el@] + rest) =~= (
                            prev.map_values(|e: ShapeElement| e@) + seq![el@]) + rest);
                            assert(prev.push(el).map_values(|e: ShapeElement| e@) =~= prev.map_values(
                                |e: ShapeElement| e@,
                            ) + seq![el@]);
                        },
                        Err(..) => {},
                    }
                }
                elements.push(el);
                i = i + 1;
            },
        }
    }
    proof {
        match spec_parse_shape_elements(proto0, b, start, count as nat) {
            Ok((s, end)) => {
                assert(elements@.map_values(|e: ShapeElement| e@) + Seq::<ShapeElementV>::empty()
                    =~= elements@.map_values(|e: ShapeElement| e@));
            },
            Err(..) => {},
        }
    }
    Ok(elements)
}

#[verifier::loop_isolation(false)]
fn decode_tuple_elements(buf: &mut Input, count: u16) -> (r: Result<Vec<TupleElement>, DecodeError>)
    requires
        old(buf).wf(),
    ensures
        final(buf).wf(),
        final(buf).proto == old(buf).proto,
        final(buf).bytes() == old(buf).bytes(),
        match spec_parse_tuple_elements(old(buf).bytes(), old(buf).pos as int, count as nat) {
            Ok((s, end)) => r matches Ok(v) && v@.map_values(|e: TupleElement| e@) == s
                && final(buf).pos == end,
            Err(e) => r == Err::<Vec<TupleElement>, DecodeError>(e),
        },
{
    let ghost b = buf.bytes();
    let ghost start = buf.pos as int;
    let mut elements: Vec<TupleElement> = Vec::new();
    let mut i: u16 = 0;
    proof {
        match spec_parse_tuple_elements(b, start, count as nat) {
            Ok((s, end)) => {
                assert(elements@.map_values(|e: TupleElement| e@) + s =~= s);
            },
            Err(..) => {},
        }
    }
    while i < count
        invariant
            buf.wf(),
            buf.proto == old(buf).proto,
            buf.bytes() == b,
            i <= count,
            match spec_parse_tuple_elements(b, buf.pos as int, (count - i) as nat) {
                Ok((s, end)) => spec_parse_tuple_elements(b, start, count as nat) == Ok::<
                    (Seq<TupleElementV>, int),
                    DecodeError,
                >((elements@.map_values(|e: TupleElement| e@) + s, end)),
                Err(e) => spec_parse_tuple_elements(b, start, count as nat) == Err::<
                    (Seq<TupleElementV>, int),
                    DecodeError,
                >(e),
            },
        decreases count - i,
    {
        let ghost prev = elements@;
        match TupleElement::decode(buf) {
            Err(e) => {
                return Err(e);
            },
            Ok(el) => {
                proof {
                    match spec_parse_tuple_elements(b, buf.pos as int, (count - i - 1) as nat) {
                        Ok((rest, p3)) => {
                            assert(prev.map_values(|e: TupleElement| e@) + (seq![el@] + rest) =~= (
                            prev.map_values(|e: TupleElement| e@) + seq![el@]) + rest);
                            assert(prev.push(el).map_values(|e: TupleElement| e@) =~= prev.map_values(
                                |e: TupleElement| e@,
                            ) + seq![el@]);
                        },
                        Err(..) => {},
                    }
                }
                elements.push(el);
                i = i + 1;
            },
        }
    }
    proof {
        match spec_parse_tuple_elements(b, start, count as nat) {
            Ok((s, end)) => {
                assert(elements@.map_values(|e: TupleElement| e@) + Seq::<TupleElementV>::empty()
                    =~= elements@.map_values(|e: TupleElement| e@));
            },
            Err(..) => {},
        }
    }
    Ok(elements)
}

#[verifier::loop_isolation(false)]
fn decode_strings(buf: &mut Input, count: u16) -> (r: Result<Vec<String>, DecodeError>)
    requires
        old(buf).wf(),
    ensures
        final(buf).wf(),
        final(buf).proto == old(buf).proto,
        final(buf).bytes() == old(buf).bytes(),
        match spec_parse_strings(old(buf).bytes(), old(buf).pos as int, count as nat) {
            Ok((s, end)) => r matches Ok(v) && v@.map_values(|x: String| x@) == s
                && final(buf).pos == end,
            Err(e) => r == Err::<Vec<String>, DecodeError>(e),
        },
{
    let ghost b = buf.bytes();
    let ghost start = buf.pos as int;
    let mut members: Vec<String> = Vec::new();
    let mut i: u16 = 0;
    proof {
        match spec_parse_strings(b, start, count as nat) {
            Ok((s, end)) => {
                assert(members@.map_values(|x: String| x@) + s =~= s);
            },
            Err(..) => {},
        }
    }
    while i < count
        invariant
            buf.wf(),
            buf.proto == old(buf).proto,
            buf.bytes() == b,
            i <= count,
            match spec_parse_strings(b, buf.pos as int, (count - i) as nat) {
                Ok((s, end)) => spec_parse_strings(b, start, count as nat) == Ok::<
                    (Seq<Seq<char>>, int),
                    DecodeError,
                >((members@.map_values(|x: String| x@) + s, end)),
                Err(e) => spec_parse_strings(b, start, count as nat) == Err::<
                    (Seq<Seq<char>>, int),
                    DecodeError,
                >(e),
            },
        decreases count - i,
    {
        let ghost prev = members@;
        match buf.get_str() {
            Err(e) => {
                return Err(e);
            },
            Ok(m) => {
                proof {
                    match spec_parse_strings(b, buf.pos as int, (count - i - 1) as nat) {
                        Ok((rest, p3)) => {
                            assert(prev.map_values(|x: String| x@) + (seq![m@] + rest) =~= (
                            prev.map_values(|x: String| x@) + seq![m@]) + rest);
                            assert(prev.push(m).map_values(|x: String| x@) =~= prev.map_values(
                                |x: String| x@,
                            ) + seq![m@]);
                        },
                        Err(..) => {},
                    }
                }
                members.push(m);
                i = i + 1;
            },
        }
    }
    proof {
        match spec_parse_strings(b, start, count as nat) {
            Ok((s, end)) => {
                assert(members@.map_values(|x: String| x@) + Seq::<Seq<char>>::empty()
                    =~= members@.map_values(|x: String| x@));
            },
            Err(..) => {},
        }
    }
    Ok(members)
}

impl ObjectShapeDescriptor {
    pub fn decode(buf: &mut Input) -> (r: Result<ObjectShapeDescriptor, DecodeError>)
        requires
            old(buf).wf(),
        ensures
            final(buf).wf(),
            final(buf).proto == old(buf).proto,
            final(buf).bytes() == old(buf).bytes(),
            match spec_parse_object_shape(old(buf).proto, old(buf).bytes(), old(buf).pos as int) {
                Ok((d, end)) => r matches Ok(v) && v@ == d && final(buf).pos == end,
                Err(e) => r == Err::<ObjectShapeDescriptor, DecodeError>(e),
            },
    {
        if buf.remaining() < 19 {
            return Err(DecodeError::Underflow);
        }
        let _tag: u8 = buf.get_u8();
        let id = Uuid(buf.get_u128());
        let element_count = buf.get_u16();
        match decode_shape_elements(buf, element_count) {
            Err(e) => Err(e),
            Ok(elements) => {
                proof {
                    match spec_parse_shape_elements(
                        old(buf).proto,
                        old(buf).bytes(),
                        old(buf).pos + 19,
                        element_count as nat,
                    ) {
                        Ok((s, end)) => {
                            assert(elements@.map_values(|e: ShapeElement| e@) =~= s);
                        },
                        Err(..) => {},
                    }
                }
                Ok(ObjectShapeDescriptor { id, elements })
            },
        }
    }
}

impl InputShapeTypeDescriptor {
    pub fn decode(buf: &mut Input) -> (r: Result<InputShapeTypeDescriptor, DecodeError>)
        requires
            old(buf).wf(),
        ensures
            final(buf).wf(),
            final(buf).proto == old(buf).proto,
            final(buf).bytes() == old(buf).bytes(),
            match spec_parse_input_shape(old(buf).proto, old(buf).bytes(), old(buf).pos as int) {
                Ok((d, end)) => r matches Ok(v) && v@ == d && final(buf).pos == end,
                Err(e) => r == Err::<InputShapeTypeDescriptor, DecodeError>(e),
            },
    {
        if buf.remaining() < 19 {
            return Err(DecodeError::Underflow);
        }
        let _tag: u8 = buf.get_u8();
        let id = Uuid(buf.get_u128());
        let element_count = buf.get_u16();
        match decode_shape_elements(buf, element_count) {
            Err(e) => Err(e),
            Ok(elements) => {
                proof {
                    match spec_parse_shape_elements(
                        old(buf).proto,
                        old(buf).bytes(),
                        old(buf).pos + 19,
                        element_count as nat,
                    ) {
                        Ok((s, end)) => {
                            assert(elements@.map_values(|e: ShapeElement| e@) =~= s);
                        },
                        Err(..) => {},
                    }
                }
                Ok(InputShapeTypeDescriptor { id, elements })
            },
        }
    }
}

impl NamedTupleTypeDescriptor {
    pub fn decode(buf: &mut Input) -> (r: Result<NamedTupleTypeDescriptor, DecodeError>)
        requires
            old(buf).wf(),
        ensures
            final(buf).wf(),
            final(buf).proto == old(buf).proto,
            final(buf).bytes() == old(buf).bytes(),
            match spec_parse_named_tuple(old(buf).bytes(), old(buf).pos as int) {
                Ok((d, end)) => r matches Ok(v) && v@ == d && final(buf).pos == end,
                Err(e) => r == Err::<NamedTupleTypeDescriptor, DecodeError>(e),
            },
    {
        if buf.remaining() < 19 {
            return Err(DecodeError::Underflow);
        }
        let _tag: u8 = buf.get_u8();
        let id = Uuid(buf.get_u128());
        let element_count = buf.get_u16();
        match decode_tuple_elements(buf, element_count) {
            Err(e) => Err(e),
            Ok(elements) => {
                proof {
                    match spec_parse_tuple_elements(
                        old(buf).bytes(),
                        old(buf).pos + 19,
                        element_count as nat,
                    ) {
                        Ok((s, end)) => {
                            assert(elements@.map_values(|e: TupleElement| e@) =~= s);
                        },
                        Err(..) => {},
                    }
                }
                Ok(NamedTupleTypeDescriptor { id, elements })
            },
        }
    }
}

impl EnumerationTypeDescriptor {
    pub fn decode(buf: &mut Input) -> (r: Result<EnumerationTypeDescriptor, DecodeError>)
        requires
            old(buf).wf(),
        ensures
            final(buf).wf(),
            final(buf).proto == old(buf).proto,
            final(buf).bytes() == old(buf).bytes(),
            match spec_parse_enumeration(old(buf).bytes(), old(buf).pos as int) {
                Ok((d, end)) => r matches Ok(v) && v@ == d && final(buf).pos == end,
                Err(e) => r == Err::<EnumerationTypeDescriptor, DecodeError>(e),
            },
    {
        if buf.remaining() < 19 {
            return Err(DecodeError::Underflow);
        }
        let _tag: u8 = buf.get_u8();
        let id = Uuid(buf.get_u128());
        let member_count = buf.get_u16();
        match decode_strings(buf, member_count) {
            Err(e) => Err(e),
            Ok(members) => {
                proof {
                    match spec_parse_strings(
                        old(buf).bytes(),
                        old(buf).pos + 19,
                        member_count as nat,
                    ) {
                        Ok((s, end)) => {
                            assert(members@.map_values(|x: String| x@) =~= s);
                        },
                        Err(..) => {},
                    }
                }
                Ok(EnumerationTypeDescriptor { id, members })
            },
        }
    }
}

impl TypeAnnotationDescriptor {
    pub fn decode(buf: &mut Input) -> (r: Result<TypeAnnotationDescriptor, DecodeError>)
        requires
            old(buf).wf(),
        ensures
            final(buf).wf(),
            final(buf).proto == old(buf).proto,
            final(buf).bytes() == old(buf).bytes(),
            match spec_parse_annotation(old(buf).bytes(), old(buf).pos as int) {
                Ok((d, end)) => r matches Ok(v) && v@ == d && final(buf).pos == end,
                Err(e) => r == Err::<TypeAnnotationDescriptor, DecodeError>(e),
            },
    {
        if buf.remaining() < 21 {
            return Err(DecodeError::Underflow);
        }
        let annotated_type = buf.get_u8();
        let id = Uuid(buf.get_u128());
        match buf.get_str() {
            Err(e) => Err(e),
            Ok(annotation) => Ok(TypeAnnotationDescriptor { annotated_type, id, annotation }),
        }
    }
}

impl Descriptor {
    /// Decode one descriptor record: the tag byte selects the variant.
    pub fn decode(buf: &mut Input) -> (r: Result<Descriptor, DecodeError>)
        requires
            old(buf).wf(),
        ensures
            final(buf).wf(),
            final(buf).proto == old(buf).proto,
            final(buf).bytes() == old(buf).bytes(),
            match spec_parse_descriptor(old(buf).proto, old(buf).bytes(), old(buf).pos as int) {
                Ok((d, end)) => r matches Ok(v) && v@ == d && final(buf).pos == end,
                Err(e) => r == Err::<Descriptor, DecodeError>(e),
            },
    {
        if buf.remaining() < 1 {
            return Err(DecodeError::Underflow);
        }
        let tag = buf.peek_u8();
        if tag == 0 {
            match SetDescriptor::decode(buf) {
                Ok(d) => Ok(Descriptor::SetType(d)),
                Err(e) => Err(e),
            }
        } else if tag == 1 {
            match ObjectShapeDescriptor::decode(buf) {
                Ok(d) => Ok(Descriptor::ObjectShape(d)),
                Err(e) => Err(e),
            }
        } else if tag == 2 {
            match BaseScalarTypeDescriptor::decode(buf) {
                Ok(d) => Ok(Descriptor::BaseScalar(d)),
                Err(e) => Err(e),
            }
        } else if tag == 3 {
            match ScalarTypeDescriptor::decode(buf) {
                Ok(d) => Ok(Descriptor::Scalar(d)),
                Err(e) => Err(e),
            }
        } else if tag == 4 {
            match TupleTypeDescriptor::decode(buf) {
                Ok(d) => Ok(Descriptor::Tuple(d)),
                Err(e) => Err(e),
            }
        } else if tag == 5 {
            match NamedTupleTypeDescriptor::decode(buf) {
                Ok(d) => Ok(Descriptor::NamedTuple(d)),
                Err(e) => Err(e),
            }
        } else if tag == 6 {
            match ArrayTypeDescriptor::decode(buf) {
                Ok(d) => Ok(Descriptor::Array(d)),
                Err(e) => Err(e),
            }
        } else if tag == 7 {
            match EnumerationTypeDescriptor::decode(buf) {
                Ok(d) => Ok(Descriptor::Enumeration(d)),
                Err(e) => Err(e),
            }
        } else if tag == 8 {
            match InputShapeTypeDescriptor::decode(buf) {
                Ok(d) => Ok(Descriptor::InputShape(d)),
                Err(e) => Err(e),
            }
        } else if tag == 9 {
            match RangeTypeDescriptor::decode(buf) {
                Ok(d) => Ok(Descriptor::Range(d)),
                Err(e) => Err(e),
            }
        } else if tag >= 0x7F {
            match TypeAnnotationDescriptor::decode(buf) {
                Ok(d) => Ok(Descriptor::TypeAnnotation(d)),
                Err(e) => Err(e),
            }
        } else {
            Err(DecodeError::InvalidTypeDescriptor { descriptor: tag })
        }
    }
}

impl TupleElement {
    pub fn decode(buf: &mut Input) -> (r: Result<TupleElement, DecodeError>)
        requires
            old(buf).wf(),
        ensures
            final(buf).wf(),
            final(buf).proto == old(buf).proto,
            final(buf).bytes() == old(buf).bytes(),
            match spec_parse_tuple_element(old(buf).bytes(), old(buf).pos as int) {
                Ok((e, end)) => r matches Ok(v) && v@ == e && final(buf).pos == end,
                Err(e) => r == Err::<TupleElement, DecodeError>(e),
            },
    {
        let name = match buf.get_str() {
            Ok(s) => s,
            Err(e) => {
                return Err(e);
            },
        };
        if buf.remaining() < 2 {
            return Err(DecodeError::Underflow);
        }
        let type_pos = TypePos(buf.get_u16());
        Ok(TupleElement { name, type_pos })
    }
}

/// `i` is the first position in `arr` carrying the id `root`.
pub open spec fn spec_found_at(arr: Seq<DescriptorV>, root: Uuid, i: int) -> bool {
    &&& 0 <= i < arr.len()
    &&& arr[i].spec_id() == root
    &&& forall|j: int| 0 <= j < i ==> arr[j].spec_id() != root
}

/// Two first positions of the same id coincide.
pub proof fn lemma_found_at_unique(arr: Seq<DescriptorV>, root: Uuid, i1: int, i2: int)
    requires
        spec_found_at(arr, root, i1),
        spec_found_at(arr, root, i2),
    ensures
        i1 == i2,
{
    if i1 < i2 {
        assert(arr[i1].spec_id() != root);
    } else if i2 < i1 {
        assert(arr[i2].spec_id() != root);
    }
}

/// Root resolution: a zero root UUID means no root; otherwise the root is the
/// first descriptor with that id, its index must fit 16 bits, and a missing id
/// fails.
pub open spec fn spec_resolve_root(arr: Seq<DescriptorV>, root: Uuid) -> Result<
    Option<TypePos>,
    DecodeError,
> {
    if root == Uuid(0) {
        Ok(None)
    } else if exists|i: int| spec_found_at(arr, root, i) {
        let i = choose|i: int| spec_found_at(arr, root, i);
        if i <= u16::MAX {
            Ok(Some(TypePos(i as u16)))
        } else {
            Err(DecodeError::TooManyDescriptors { index: i as usize })
        }
    } else {
        Err(DecodeError::UuidNotFound { uuid: root })
    }
}

/// The first index in `descriptors` whose record carries `root`, if any.
#[verifier::loop_isolation(false)]
fn find_first_id(descriptors: &Vec<Descriptor>, root: Uuid) -> (r: Option<usize>)
    ensures
        match r {
            Some(i) => spec_found_at(descriptors@.map_values(|d: Descriptor| d@), root, i as int),
            None => forall|j: int|
                0 <= j < descriptors@.len() ==> (#[trigger] descriptors@[j])@.spec_id() != root,
        },
{
    let n = descriptors.len();
    let mut i: usize = 0;
    while i < n
        invariant
            i <= n,
            n == descriptors@.len(),
            forall|j: int| 0 <= j < i ==> (#[trigger] descriptors@[j])@.spec_id() != root,
        decreases n - i,
    {
        if *descriptors[i].id() == root {
            proof {
                let arr = descriptors@.map_values(|d: Descriptor| d@);
                assert(arr[i as int] == descriptors@[i as int]@);
                assert forall|j: int| 0 <= j < i implies (#[trigger] arr[j]).spec_id() != root by {
                    assert(arr[j] == descriptors@[j]@);
                }
            }
            return Some(i);
        }
        i = i + 1;
    }
    None
}

/// A decoded descriptor set for result values: the ordered structural
/// records, the requested root UUID, and the root's position when one exists.
#[derive(Debug)]
pub struct OutputTypedesc {
    pub proto: ProtocolVersion,
    pub array: Vec<Descriptor>,
    pub root_id: Uuid,
    pub root_pos: Option<TypePos>,
}

/// A decoded descriptor set for query arguments.
#[derive(Debug)]
pub struct InputTypedesc {
    pub proto: ProtocolVersion,
    pub array: Vec<Descriptor>,
    pub root_id: Uuid,
    pub root_pos: Option<TypePos>,
}

/// What a downstream codec builder walks: the descriptor array, the root
/// position, the protocol version, and whether values carry an implicit
/// type id.
pub struct DescriptorContext<'a> {
    pub proto: ProtocolVersion,
    pub descriptors: &'a [Descriptor],
    pub root_pos: Option<TypePos>,
    pub has_implicit_tid: bool,
}

/// Decode a whole descriptor blob and resolve the root position.
#[verifier::loop_isolation(false)]
fn decode_descriptor_set(root_id: Uuid, buf: &mut Input) -> (r: Result<
    (Vec<Descriptor>, Option<TypePos>),
    DecodeError,
>)
    requires
        old(buf).wf(),
    ensures
        final(buf).wf(),
        final(buf).proto == old(buf).proto,
        final(buf).bytes() == old(buf).bytes(),
        match spec_parse_stream(old(buf).proto, old(buf).bytes(), old(buf).pos as int) {
            Err(e) => r == Err::<(Vec<Descriptor>, Option<TypePos>), DecodeError>(e),
            Ok(arr) => match spec_resolve_root(arr, root_id) {
                Err(e) => r == Err::<(Vec<Descriptor>, Option<TypePos>), DecodeError>(e),
                Ok(rp) => r matches Ok((v, p)) && v@.map_values(|d: Descriptor| d@) == arr && p
                    == rp,
            },
        },
{
    let ghost proto0 = buf.proto;
    let ghost b = buf.bytes();
    let ghost start = buf.pos as int;
    let mut descriptors: Vec<Descriptor> = Vec::new();
    proof {
        match spec_parse_stream(proto0, b, start) {
            Ok(s) => {
                assert(descriptors@.map_values(|d: Descriptor| d@) + s =~= s);
            },
            Err(..) => {},
        }
    }
    while buf.remaining() > 0
        invariant
            buf.wf(),
            buf.proto == proto0,
            buf.bytes() == b,
            match spec_parse_stream(proto0, b, buf.pos as int) {
                Ok(rest) => spec_parse_stream(proto0, b, start) == Ok::<
                    Seq<DescriptorV>,
                    DecodeError,
                >(descriptors@.map_values(|d: Descriptor| d@) + rest),
                Err(e) => spec_parse_stream(proto0, b, start) == Err::<
                    Seq<DescriptorV>,
                    DecodeError,
                >(e),
            },
        decreases b.len() - buf.pos,
    {
        let ghost pos_cur = buf.pos as int;
        let ghost prev = descriptors@;
        match Descriptor::decode(buf) {
            Err(e) => {
                return Err(e);
            },
            Ok(item) => {
                proof {
                    lemma_parse_descriptor_bounds(proto0, b, pos_cur);
                    match spec_parse_stream(proto0, b, buf.pos as int) {
                        Ok(rest) => {
                            if !(item@ matches DescriptorV::TypeAnnotation { .. }) {
                                assert(prev.map_values(|d: Descriptor| d@) + (seq![item@] + rest)
                                    =~= (prev.map_values(|d: Descriptor| d@) + seq![item@]) + rest);
                                assert(prev.push(item).map_values(|d: Descriptor| d@)
                                    =~= prev.map_values(|d: Descriptor| d@) + seq![item@]);
                            }
                        },
                        Err(..) => {},
                    }
                }
                match item {
                    Descriptor::TypeAnnotation(_) => {},
                    other => descriptors.push(other),
                }
            },
        }
    }
    proof {
        assert(spec_parse_stream(proto0, b, buf.pos as int) == Ok::<Seq<DescriptorV>, DecodeError>(
            Seq::empty(),
        ));
        assert(descriptors@.map_values(|d: Descriptor| d@) + Seq::<DescriptorV>::empty()
            =~= descriptors@.map_values(|d: Descriptor| d@));
    }
    let ghost arr = descriptors@.map_values(|d: Descriptor| d@);
    let root_pos: Option<TypePos> = if root_id == Uuid::from_u128(0) {
        None
    } else {
        match find_first_id(&descriptors, root_id) {
            None => {
                proof {
                    assert forall|i: int| !spec_found_at(arr, root_id, i) by {
                        if 0 <= i < arr.len() {
                            assert(arr[i] == descriptors@[i]@);
                            assert(descriptors@[i]@.spec_id() != root_id);
                        }
                    }
                }
                return Err(DecodeError::UuidNotFound { uuid: root_id });
            },
            Some(i) => {
                proof {
                    let w = choose|k: int| spec_found_at(arr, root_id, k);
                    lemma_found_at_unique(arr, root_id, w, i as int);
                }
                if i > 65535 {
                    return Err(DecodeError::TooManyDescriptors { index: i });
                }
                Some(TypePos(i as u16))
            },
        }
    };
    Ok((descriptors, root_pos))
}

impl OutputTypedesc {
    /// Decode a descriptor blob against a root UUID: consume every record,
    /// keep the structural ones in order, and resolve the root position.
    pub fn decode_with_id(root_id: Uuid, buf: &mut Input) -> (r: Result<
        OutputTypedesc,
        DecodeError,
    >)
        requires
            old(buf).wf(),
        ensures
            final(buf).wf(),
            final(buf).proto == old(buf).proto,
            final(buf).bytes() == old(buf).bytes(),
            match spec_parse_stream(old(buf).proto, old(buf).bytes(), old(buf).pos as int) {
                Err(e) => r == Err::<OutputTypedesc, DecodeError>(e),
                Ok(arr) => match spec_resolve_root(arr, root_id) {
                    Err(e) => r == Err::<OutputTypedesc, DecodeError>(e),
                    Ok(rp) => r matches Ok(v) && v.proto == old(buf).proto
                        && v.array@.map_values(|d: Descriptor| d@) == arr && v.root_id == root_id
                        && v.root_pos == rp,
                },
            },
    {
        match decode_descriptor_set(root_id, buf) {
            Err(e) => Err(e),
            Ok((array, root_pos)) => Ok(
                OutputTypedesc { proto: buf.proto, array, root_id, root_pos },
            ),
        }
    }

    /// The context a codec builder for result values walks.
    pub fn as_queryable_context(&self) -> (r: DescriptorContext<'_>)
        ensures
            r.proto == self.proto,
            r.descriptors@ == self.array@,
            r.root_pos == self.root_pos,
            r.has_implicit_tid == self.proto.spec_is_at_most(0, 8),
    {
        DescriptorContext {
            proto: self.proto,
            descriptors: self.array.as_slice(),
            root_pos: self.root_pos,
            has_implicit_tid: self.proto.has_implicit_tid(),
        }
    }

    pub fn descriptors(&self) -> (r: &[Descriptor])
        ensures
            r@ == self.array@,
    {
        self.array.as_slice()
    }

    pub fn root_pos(&self) -> (r: Option<TypePos>)
        ensures
            r == self.root_pos,
    {
        self.root_pos
    }
}

impl InputTypedesc {
    /// Assemble a descriptor set for query arguments from already-decoded
    /// parts.
    pub fn new(
        proto: ProtocolVersion,
        array: Vec<Descriptor>,
        root_id: Uuid,
        root_pos: Option<TypePos>,
    ) -> (r: InputTypedesc)
        ensures
            r.proto == proto,
            r.array == array,
            r.root_id == root_id,
            r.root_pos == root_pos,
    {
        InputTypedesc { proto, array, root_id, root_pos }
    }

    /// The context a codec builder for query arguments walks.
    pub fn as_query_arg_context(&self) -> (r: DescriptorContext<'_>)
        ensures
            r.proto == self.proto,
            r.descriptors@ == self.array@,
            r.root_pos == self.root_pos,
            r.has_implicit_tid == self.proto.spec_is_at_most(0, 8),
    {
        DescriptorContext {
            proto: self.proto,
            descriptors: self.array.as_slice(),
            root_pos: self.root_pos,
            has_implicit_tid: self.proto.has_implicit_tid(),
        }
    }

    pub fn descriptors(&self) -> (r: &[Descriptor])
        ensures
            r@ == self.array@,
    {
        self.array.as_slice()
    }

    /// The root descriptor, when a root position exists and is in bounds.
    pub open spec fn spec_root(&self) -> Option<Descriptor> {
        match self.root_pos {
            Some(tp) => if (tp.0 as int) < self.array@.len() {
                Some(self.array@[tp.0 as int])
            } else {
                None
            },
            None => None,
        }
    }

    pub fn root(&self) -> (r: Option<&Descriptor>)
        ensures
            match self.spec_root() {
                Some(d) => r matches Some(x) && *x == d,
                None => r is None,
            },
    {
        match self.root_pos {
            Some(tp) => {
                let i = tp.0 as usize;
                if i < self.array.len() {
                    Some(&self.array[i])
                } else {
                    None
                }
            },
            None => None,
        }
    }

    pub fn root_pos(&self) -> (r: Option<TypePos>)
        ensures
            r == self.root_pos,
    {
        self.root_pos
    }

    /// Dereference a type position: an array bounds check.
    pub fn get(&self, type_pos: TypePos) -> (r: Result<&Descriptor, CodecError>)
        ensures
            (type_pos.0 as int) < self.array@.len() ==> (r matches Ok(d) && *d == self.array@[type_pos.0 as int]),
            (type_pos.0 as int) >= self.array@.len() ==> r == Err::<&Descriptor, CodecError>(
                CodecError::UnexpectedTypePos { position: type_pos.0 },
            ),
    {
        let i = type_pos.0 as usize;
        if i < self.array.len() {
            Ok(&self.array[i])
        } else {
            Err(CodecError::UnexpectedTypePos { position: type_pos.0 })
        }
    }

    /// Whether the root is the empty tuple type.
    pub open spec fn spec_is_empty_tuple(&self) -> bool {
        match self.spec_root() {
            Some(d) => d@ matches DescriptorV::Tuple { id, element_types } && id == Uuid(0xFF)
                && element_types.len() == 0,
            None => false,
        }
    }

    pub fn is_empty_tuple(&self) -> (r: bool)
        ensures
            r == self.spec_is_empty_tuple(),
    {
        match self.root() {
            Some(d) => match d {
                Descriptor::Tuple(t) => t.id == Uuid::from_u128(0xFF)
                    && t.element_types.is_empty(),
                _ => false,
            },
            None => false,
        }
    }

    pub fn proto(&self) -> (r: &ProtocolVersion)
        ensures
            *r == self.proto,
    {
        &self.proto
    }
}

impl Descriptor {
    /// The type identity of this record.
    pub fn id(&self) -> (r: &Uuid)
        ensures
            *r == self@.spec_id(),
    {
        match self {
            Descriptor::SetType(i) => &i.id,
            Descriptor::ObjectShape(i) => &i.id,
            Descriptor::BaseScalar(i) => &i.id,
            Descriptor::Scalar(i) => &i.id,
            Descriptor::Tuple(i) => &i.id,
            Descriptor::NamedTuple(i) => &i.id,
            Descriptor::Array(i) => &i.id,
            Descriptor::Range(i) => &i.id,
            Descriptor::Enumeration(i) => &i.id,
            Descriptor::InputShape(i) => &i.id,
            Descriptor::TypeAnnotation(i) => &i.id,
        }
    }
}

} // verus!
