//! The partition log: keyspecs, routing keys, log events and the tree that the events build.
//!
//! A lake starts with a single physical leaf that is also the root. The complete routing and
//! identity keyspecs are pinned from the start.

use vstd::prelude::*;
use vstd::string::*;

use crate::domain::Observation;
use crate::json::{
    json_text_field, json_u32_field, parse_json, repeats_any_name, write_json, Json, JsonView,
};
use crate::text::{
    contains_char, join_strings, padded_signed_text, padded_text, str_eq, strip_prefix, text2, text3,
    text4,
};
use crate::runtime::tree::TreeView;
use crate::time::Timestamp;

verus! {

pub const PARTITION_EVENT_INITIALIZE: &'static str = "initialize";

pub const PARTITION_EVENT_SPLIT_PREPARE: &'static str = "split_prepare";

pub const PARTITION_EVENT_SPLIT_COMMIT: &'static str = "split_commit";

pub const PARTITION_EVENT_FAILOVER: &'static str = "failover";

pub const PARTITION_EVENT_RECOVER: &'static str = "recover";

pub const PARTITION_SPLIT_REASON_CAPACITY: &'static str = "capacity";

pub const ROUTING_KEYSPEC_VERSION: &'static str = "routing-keyspec/v1";

pub const IDENTITY_KEYSPEC_VERSION: &'static str = "identity-keyspec/v1";

/// The character between two axes of an encoded routing key.
pub const ROUTING_AXIS_SEPARATOR: char = '\u{1f}';

/// Why a partition operation was refused.
#[derive(Debug, PartialEq, Eq)]
pub enum PartitionError {
    InvalidLeafId(String),
    EmptyRoutingAxis { axis: &'static str },
    ReservedRoutingAxisSeparator { axis: &'static str },
    InvalidRoutingAxisCount,
    InvalidRoutingPrefixAxisCount,
    MissingInitialize,
    DuplicateInitialize,
    SplitParentNotFound(String),
    SplitParentAlreadyRetired(String),
    DuplicateLeafId(String),
    InvalidSplitReason,
    InvalidSplitCapacity,
    InsufficientSplitInput,
    NoDiscriminatingBit,
    SplitCutoverOutOfOrder { expected: &'static str, actual: &'static str },
    UnknownEventType(String),
    /// The event text is no JSON document of the event's form; holds the reader's message.
    Json(String),
}

/// What a partition error says; the message of a JSON reader is left out.
pub enum PartitionErrorView {
    InvalidLeafId(Seq<char>),
    EmptyRoutingAxis(Seq<char>),
    ReservedRoutingAxisSeparator(Seq<char>),
    InvalidRoutingAxisCount,
    InvalidRoutingPrefixAxisCount,
    MissingInitialize,
    DuplicateInitialize,
    SplitParentNotFound(Seq<char>),
    SplitParentAlreadyRetired(Seq<char>),
    DuplicateLeafId(Seq<char>),
    InvalidSplitReason,
    InvalidSplitCapacity,
    InsufficientSplitInput,
    NoDiscriminatingBit,
    SplitCutoverOutOfOrder { expected: Seq<char>, actual: Seq<char> },
    UnknownEventType(Seq<char>),
    Json,
}

impl View for PartitionError {
    type V = PartitionErrorView;

    open spec fn view(&self) -> PartitionErrorView {
        match *self {
            PartitionError::InvalidLeafId(s) => PartitionErrorView::InvalidLeafId(s@),
            PartitionError::EmptyRoutingAxis { axis } => PartitionErrorView::EmptyRoutingAxis(
                axis@,
            ),
            PartitionError::ReservedRoutingAxisSeparator { axis } =>
                PartitionErrorView::ReservedRoutingAxisSeparator(axis@),
            PartitionError::InvalidRoutingAxisCount => PartitionErrorView::InvalidRoutingAxisCount,
            PartitionError::InvalidRoutingPrefixAxisCount =>
                PartitionErrorView::InvalidRoutingPrefixAxisCount,
            PartitionError::MissingInitialize => PartitionErrorView::MissingInitialize,
            PartitionError::DuplicateInitialize => PartitionErrorView::DuplicateInitialize,
            PartitionError::SplitParentNotFound(s) => PartitionErrorView::SplitParentNotFound(s@),
            PartitionError::SplitParentAlreadyRetired(s) =>
                PartitionErrorView::SplitParentAlreadyRetired(s@),
            PartitionError::DuplicateLeafId(s) => PartitionErrorView::DuplicateLeafId(s@),
            PartitionError::InvalidSplitReason => PartitionErrorView::InvalidSplitReason,
            PartitionError::InvalidSplitCapacity => PartitionErrorView::InvalidSplitCapacity,
            PartitionError::InsufficientSplitInput => PartitionErrorView::InsufficientSplitInput,
            PartitionError::NoDiscriminatingBit => PartitionErrorView::NoDiscriminatingBit,
            PartitionError::SplitCutoverOutOfOrder { expected, actual } =>
                PartitionErrorView::SplitCutoverOutOfOrder { expected: expected@, actual: actual@ },
            PartitionError::UnknownEventType(s) => PartitionErrorView::UnknownEventType(s@),
            PartitionError::Json(_) => PartitionErrorView::Json,
        }
    }
}

/// The text of a partition error; that of a JSON reader is not told here.
pub open spec fn partition_message(error: PartitionErrorView) -> Option<Seq<char>> {
    match error {
        PartitionErrorView::InvalidLeafId(s) => Some("invalid leaf id: "@ + s),
        PartitionErrorView::EmptyRoutingAxis(a) => Some("routing axis "@ + a + " is empty"@),
        PartitionErrorView::ReservedRoutingAxisSeparator(a) => Some(
            "routing axis "@ + a + " contains the reserved separator"@,
        ),
        PartitionErrorView::InvalidRoutingAxisCount => Some(
            "routing key requires exactly 5 axes"@,
        ),
        PartitionErrorView::InvalidRoutingPrefixAxisCount => Some(
            "routing prefix cannot contain more than 5 axes"@,
        ),
        PartitionErrorView::MissingInitialize => Some("partition log has no initialize event"@),
        PartitionErrorView::DuplicateInitialize => Some(
            "partition log has more than one initialize event"@,
        ),
        PartitionErrorView::SplitParentNotFound(s) => Some("split parent leaf not found: "@ + s),
        PartitionErrorView::SplitParentAlreadyRetired(s) => Some(
            "split parent is already retired: "@ + s,
        ),
        PartitionErrorView::DuplicateLeafId(s) => Some("split child leaf id already exists: "@ + s),
        PartitionErrorView::InvalidSplitReason => Some("split_commit reason must be capacity"@),
        PartitionErrorView::InvalidSplitCapacity => Some(
            "split capacity must be greater than zero"@,
        ),
        PartitionErrorView::InsufficientSplitInput => Some(
            "capacity split requires at least two routed observations"@,
        ),
        PartitionErrorView::NoDiscriminatingBit => Some("routing keys have no discriminating bit"@),
        PartitionErrorView::SplitCutoverOutOfOrder { expected, actual } => Some(
            "split cutover step out of order: expected "@ + expected + ", actual "@ + actual,
        ),
        PartitionErrorView::UnknownEventType(s) => Some("unknown partition event type: "@ + s),
        PartitionErrorView::Json => None,
    }
}

impl PartitionError {
    /// The text of the error.
    pub fn message(&self) -> (r: String)
        ensures
            partition_message(self@) matches Some(m) ==> r@ == m,
            self matches PartitionError::Json(m) ==> r@ == "json error: "@ + m@,
    {
        match self {
            PartitionError::InvalidLeafId(s) => text2("invalid leaf id: ", s.as_str()),
            PartitionError::EmptyRoutingAxis { axis } => text3("routing axis ", axis, " is empty"),
            PartitionError::ReservedRoutingAxisSeparator { axis } => text3(
                "routing axis ",
                axis,
                " contains the reserved separator",
            ),
            PartitionError::InvalidRoutingAxisCount =>
                "routing key requires exactly 5 axes".to_owned(),
            PartitionError::InvalidRoutingPrefixAxisCount =>
                "routing prefix cannot contain more than 5 axes".to_owned(),
            PartitionError::MissingInitialize => "partition log has no initialize event".to_owned(),
            PartitionError::DuplicateInitialize =>
                "partition log has more than one initialize event".to_owned(),
            PartitionError::SplitParentNotFound(s) => text2(
                "split parent leaf not found: ",
                s.as_str(),
            ),
            PartitionError::SplitParentAlreadyRetired(s) => text2(
                "split parent is already retired: ",
                s.as_str(),
            ),
            PartitionError::DuplicateLeafId(s) => text2(
                "split child leaf id already exists: ",
                s.as_str(),
            ),
            PartitionError::InvalidSplitReason => "split_commit reason must be capacity".to_owned(),
            PartitionError::InvalidSplitCapacity =>
                "split capacity must be greater than zero".to_owned(),
            PartitionError::InsufficientSplitInput =>
                "capacity split requires at least two routed observations".to_owned(),
            PartitionError::NoDiscriminatingBit =>
                "routing keys have no discriminating bit".to_owned(),
            PartitionError::SplitCutoverOutOfOrder { expected, actual } => text4(
                "split cutover step out of order: expected ",
                expected,
                ", actual ",
                actual,
            ),
            PartitionError::UnknownEventType(s) => text2(
                "unknown partition event type: ",
                s.as_str(),
            ),
            PartitionError::Json(m) => text2("json error: ", m.as_str()),
        }
    }
}

/// The digits of hexadecimal numbers, in small letters or capitals.
pub open spec fn is_hex_digit(c: char) -> bool {
    crate::text::is_digit(c) || ('a' <= c && c <= 'f') || ('A' <= c && c <= 'F')
}

/// Whether a text is a UUID with hyphens.
pub open spec fn hyphenated_uuid(s: Seq<char>) -> bool {
    &&& s.len() == 36
    &&& forall|i: int|
        0 <= i < 36 ==> if i == 8 || i == 13 || i == 18 || i == 23 {
            #[trigger] s[i] == '-'
        } else {
            is_hex_digit(s[i])
        }
}

/// Whether a text is a UUID: digits alone, with hyphens, with hyphens in braces, or with hyphens as a
/// URN.
pub open spec fn uuid_text(s: Seq<char>) -> bool {
    ||| s.len() == 32 && forall|i: int| 0 <= i < 32 ==> is_hex_digit(#[trigger] s[i])
    ||| hyphenated_uuid(s)
    ||| s.len() == 38 && s[0] == '{' && s[37] == '}' && hyphenated_uuid(s.subrange(1, 37))
    ||| s.len() == 45 && crate::text::lowered(s.take(9)) == "urn:uuid:"@ && hyphenated_uuid(
        s.skip(9),
    )
}

/// Asks `uuid::Uuid::parse_str` whether a text is a UUID. The contract claims that it accepts the four
/// forms of a UUID and nothing else.
#[verifier::external_body]
fn uuid_parses(text: &str) -> (r: bool)
    ensures
        r == uuid_text(text@),
{
    uuid::Uuid::parse_str(text).is_ok()
}

/// `lake:` and a UUID.
pub open spec fn valid_leaf_id(id: Seq<char>) -> bool {
    crate::text::begins(id, "lake:"@) && uuid_text(id.skip("lake:"@.len() as int))
}

/// `spool:` and a UUID.
pub open spec fn valid_failover_id(id: Seq<char>) -> bool {
    crate::text::begins(id, "spool:"@) && uuid_text(id.skip("spool:"@.len() as int))
}

/// What is wrong with the three leaves of a split, first fault first.
pub open spec fn split_ids_error(
    parent: Seq<char>,
    left: Seq<char>,
    right: Seq<char>,
) -> Option<PartitionErrorView> {
    if !valid_leaf_id(parent) {
        Some(PartitionErrorView::InvalidLeafId(parent))
    } else if !valid_leaf_id(left) {
        Some(PartitionErrorView::InvalidLeafId(left))
    } else if !valid_leaf_id(right) {
        Some(PartitionErrorView::InvalidLeafId(right))
    } else if parent == left {
        Some(PartitionErrorView::DuplicateLeafId(left))
    } else if parent == right || left == right {
        Some(PartitionErrorView::DuplicateLeafId(right))
    } else {
        None
    }
}

fn validate_leaf_id(value: &str) -> (r: Result<(), PartitionError>)
    ensures
        match r {
            Ok(_) => valid_leaf_id(value@),
            Err(e) => !valid_leaf_id(value@) && e@ == PartitionErrorView::InvalidLeafId(value@),
        },
{
    match strip_prefix(value, "lake:") {
        Some(rest) => {
            if uuid_parses(rest) {
                Ok(())
            } else {
                Err(PartitionError::InvalidLeafId(value.to_owned()))
            }
        },
        None => Err(PartitionError::InvalidLeafId(value.to_owned())),
    }
}

fn validate_failover_id(value: &str) -> (r: Result<(), PartitionError>)
    ensures
        match r {
            Ok(_) => valid_failover_id(value@),
            Err(e) => !valid_failover_id(value@) && e@ == PartitionErrorView::InvalidLeafId(value@),
        },
{
    match strip_prefix(value, "spool:") {
        Some(rest) => {
            if uuid_parses(rest) {
                Ok(())
            } else {
                Err(PartitionError::InvalidLeafId(value.to_owned()))
            }
        },
        None => Err(PartitionError::InvalidLeafId(value.to_owned())),
    }
}

fn validate_split_leaf_ids(
    parent_leaf_id: &str,
    left_child_leaf_id: &str,
    right_child_leaf_id: &str,
) -> (r: Result<(), PartitionError>)
    ensures
        match r {
            Ok(_) => split_ids_error(parent_leaf_id@, left_child_leaf_id@, right_child_leaf_id@)
                is None,
            Err(e) => split_ids_error(parent_leaf_id@, left_child_leaf_id@, right_child_leaf_id@)
                == Some(e@),
        },
{
    match validate_leaf_id(parent_leaf_id) {
        Ok(_) => {},
        Err(e) => return Err(e),
    }
    match validate_leaf_id(left_child_leaf_id) {
        Ok(_) => {},
        Err(e) => return Err(e),
    }
    match validate_leaf_id(right_child_leaf_id) {
        Ok(_) => {},
        Err(e) => return Err(e),
    }
    if str_eq(parent_leaf_id, left_child_leaf_id) {
        return Err(PartitionError::DuplicateLeafId(left_child_leaf_id.to_owned()));
    }
    if str_eq(parent_leaf_id, right_child_leaf_id) || str_eq(
        left_child_leaf_id,
        right_child_leaf_id,
    ) {
        return Err(PartitionError::DuplicateLeafId(right_child_leaf_id.to_owned()));
    }
    Ok(())
}

/// The name of a routing axis, by its place in the key.
pub open spec fn axis_name(i: int) -> Seq<char> {
    if i == 0 {
        "coarse_month"@
    } else if i == 1 {
        "coarse_year"@
    } else if i == 2 {
        "source"@
    } else if i == 3 {
        "container"@
    } else {
        "fine_published"@
    }
}

fn axis_label(i: usize) -> (r: &'static str)
    ensures
        r@ == axis_name(i as int),
{
    match i {
        0 => "coarse_month",
        1 => "coarse_year",
        2 => "source",
        3 => "container",
        _ => "fine_published",
    }
}

/// Whether a value can stand on a routing axis: it is not empty and free of the separator.
pub open spec fn valid_axis(value: Seq<char>) -> bool {
    value.len() > 0 && !value.contains(ROUTING_AXIS_SEPARATOR)
}

/// What is wrong with the axes from place `from` on, first fault first.
pub open spec fn axes_error(axes: Seq<Seq<char>>, from: int) -> Option<PartitionErrorView>
    decreases axes.len() - from,
{
    if from < 0 || from >= axes.len() {
        None
    } else if axes[from].len() == 0 {
        Some(PartitionErrorView::EmptyRoutingAxis(axis_name(from)))
    } else if axes[from].contains(ROUTING_AXIS_SEPARATOR) {
        Some(PartitionErrorView::ReservedRoutingAxisSeparator(axis_name(from)))
    } else {
        axes_error(axes, from + 1)
    }
}

fn validate_routing_axis(axis: &'static str, value: &str) -> (r: Result<(), PartitionError>)
    ensures
        match r {
            Ok(_) => valid_axis(value@),
            Err(e) => e@ == (if value@.len() == 0 {
                PartitionErrorView::EmptyRoutingAxis(axis@)
            } else {
                PartitionErrorView::ReservedRoutingAxisSeparator(axis@)
            }) && !valid_axis(value@),
        },
{
    if value.is_empty() {
        return Err(PartitionError::EmptyRoutingAxis { axis });
    }
    if contains_char(value, ROUTING_AXIS_SEPARATOR) {
        return Err(PartitionError::ReservedRoutingAxisSeparator { axis });
    }
    Ok(())
}

fn validate_axes(axes: &[String]) -> (r: Result<(), PartitionError>)
    ensures
        match r {
            Ok(_) => axes_error(crate::text::strings(axes@), 0) is None && forall|i: int|
                0 <= i < axes@.len() ==> valid_axis(#[trigger] crate::text::strings(axes@)[i]),
            Err(e) => axes_error(crate::text::strings(axes@), 0) == Some(e@),
        },
{
    let ghost values = crate::text::strings(axes@);
    let mut i: usize = 0;
    while i < axes.len()
        invariant
            i <= axes.len(),
            values == crate::text::strings(axes@),
            axes_error(values, 0) == axes_error(values, i as int),
            forall|j: int| 0 <= j < i ==> valid_axis(#[trigger] values[j]),
        decreases axes.len() - i,
    {
        assert(values[i as int] == axes@[i as int]@);
        match validate_routing_axis(axis_label(i), axes[i].as_str()) {
            Ok(_) => {},
            Err(e) => return Err(e),
        }
        i = i + 1;
    }
    Ok(())
}

/// Whether a list of values is the axes of a routing key.
pub open spec fn valid_axes(axes: Seq<Seq<char>>) -> bool {
    axes.len() == 5 && forall|i: int| 0 <= i < 5 ==> valid_axis(#[trigger] axes[i])
}

/// A routing key: five values, none of them empty, none of them holding the separator.
#[derive(Debug, PartialEq, Eq)]
pub struct RoutingKey {
    axes: Vec<String>,
}

impl View for RoutingKey {
    type V = Seq<Seq<char>>;

    closed spec fn view(&self) -> Seq<Seq<char>> {
        crate::text::strings(self.axes@)
    }
}

/// The text of a list of axes: the values with the separator between them.
pub open spec fn encoded_axes(axes: Seq<Seq<char>>) -> Seq<char> {
    crate::text::join(axes, seq![ROUTING_AXIS_SEPARATOR])
}

/// The bytes by which a routing key is routed.
pub open spec fn key_bytes(axes: Seq<Seq<char>>) -> Seq<u8> {
    vstd::utf8::encode_utf8(encoded_axes(axes))
}

/// What `RoutingKey::from_axes` makes of a list of values.
pub open spec fn routing_key_of(axes: Seq<Seq<char>>) -> Result<
    Seq<Seq<char>>,
    PartitionErrorView,
> {
    if axes.len() != 5 {
        Err(PartitionErrorView::InvalidRoutingAxisCount)
    } else {
        match axes_error(axes, 0) {
            Some(e) => Err(e),
            None => Ok(axes),
        }
    }
}

fn separator_text() -> (r: String)
    ensures
        r@ == seq![ROUTING_AXIS_SEPARATOR],
{
    let mut out = String::new();
    out.push(ROUTING_AXIS_SEPARATOR);
    assert(out@ =~= seq![ROUTING_AXIS_SEPARATOR]);
    out
}

impl RoutingKey {
    #[verifier::type_invariant]
    spec fn well_formed(self) -> bool {
        valid_axes(crate::text::strings(self.axes@))
    }

    pub fn from_axes(axes: Vec<String>) -> (r: Result<RoutingKey, PartitionError>)
        ensures
            crate::text::result_view(r) == routing_key_of(crate::text::strings(axes@)),
    {
        if axes.len() != 5 {
            return Err(PartitionError::InvalidRoutingAxisCount);
        }
        match validate_axes(axes.as_slice()) {
            Ok(_) => {},
            Err(e) => return Err(e),
        }
        Ok(RoutingKey { axes })
    }

    pub fn axes(&self) -> (r: &[String])
        ensures
            crate::text::strings(r@) == self@,
            valid_axes(self@),
    {
        proof {
            use_type_invariant(self);
        }
        self.axes.as_slice()
    }

    pub fn encoded(&self) -> (r: String)
        ensures
            r@ == encoded_axes(self@),
            valid_axes(self@),
    {
        proof {
            use_type_invariant(self);
        }
        join_strings(self.axes.as_slice(), separator_text().as_str())
    }
}

/// The bit of a byte string at a position.
fn bit_at(bytes: &[u8], bit_index: u32) -> (r: bool)
    ensures
        r == crate::runtime::tree::bit_of(bytes@, bit_index),
{
    let byte_index: usize = (bit_index / 8) as usize;
    if byte_index < bytes.len() {
        let shift: u32 = 7 - bit_index % 8;
        (bytes[byte_index] & (1u8 << shift)) != 0
    } else {
        false
    }
}

fn prefix_covers_bit(prefix: &[u8], bit_index: u32) -> (r: bool)
    ensures
        r == (bit_index / 8 < prefix@.len()),
{
    let byte_index: usize = (bit_index / 8) as usize;
    byte_index < prefix.len()
}

/// Whether some key differs from the first in a bit.
pub open spec fn discriminates(keys: Seq<Seq<u8>>, bit: u32) -> bool {
    exists|i: int|
        0 <= i < keys.len() && crate::runtime::tree::bit_of(#[trigger] keys[i], bit)
            != crate::runtime::tree::bit_of(keys[0], bit)
}

/// Whether a bit is the first in which some key differs from the first key.
pub open spec fn first_discriminating(keys: Seq<Seq<u8>>, bit: u32) -> bool {
    discriminates(keys, bit) && forall|b: u32| b < bit ==> !#[trigger] discriminates(keys, b)
}

/// Whether the first difference among keys, if there is any, can be numbered by a bit index.
pub open spec fn bits_numbered(keys: Seq<Seq<u8>>) -> bool {
    (exists|b: u32| #[trigger] discriminates(keys, b)) || forall|i: int|
        0 <= i < keys.len() ==> (#[trigger] keys[i]).len() <= 0x2000_0000
}

/// The contents of a list of byte strings.
pub open spec fn byte_strings(list: Seq<Vec<u8>>) -> Seq<Seq<u8>> {
    list.map_values(|v: Vec<u8>| v@)
}

fn differs_at(keys: &Vec<Vec<u8>>, bit: u32) -> (r: bool)
    requires
        keys.len() > 0,
    ensures
        r == discriminates(byte_strings(keys@), bit),
{
    let ghost views = byte_strings(keys@);
    let first = bit_at(keys[0].as_slice(), bit);
    assert(views[0] == keys@[0]@);
    let mut i: usize = 0;
    while i < keys.len()
        invariant
            i <= keys.len(),
            views == byte_strings(keys@),
            keys.len() > 0,
            first == crate::runtime::tree::bit_of(views[0], bit),
            forall|j: int|
                0 <= j < i ==> crate::runtime::tree::bit_of(#[trigger] views[j], bit) == first,
        decreases keys.len() - i,
    {
        assert(views[i as int] == keys@[i as int]@);
        if bit_at(keys[i].as_slice(), bit) != first {
            return true;
        }
        i = i + 1;
    }
    false
}

fn longest(keys: &Vec<Vec<u8>>) -> (r: usize)
    ensures
        forall|i: int| 0 <= i < keys.len() ==> (#[trigger] keys@[i])@.len() <= r,
        r > 0 ==> exists|i: int| 0 <= i < keys.len() && (#[trigger] keys@[i])@.len() == r,
{
    let mut best: usize = 0;
    let mut i: usize = 0;
    while i < keys.len()
        invariant
            i <= keys.len(),
            forall|j: int| 0 <= j < i ==> (#[trigger] keys@[j])@.len() <= best,
            best > 0 ==> exists|j: int| 0 <= j < i && (#[trigger] keys@[j])@.len() == best,
        decreases keys.len() - i,
    {
        if keys[i].len() > best {
            best = keys[i].len();
            assert(keys@[i as int]@.len() == best);
        }
        i = i + 1;
    }
    best
}

/// The first bit in which the keys differ.
fn next_discriminating_bit(keys: &Vec<Vec<u8>>) -> (r: Result<u32, PartitionError>)
    requires
        bits_numbered(byte_strings(keys@)),
    ensures
        match r {
            Ok(bit) => keys.len() >= 2 && first_discriminating(byte_strings(keys@), bit),
            Err(e) => if keys.len() < 2 {
                e@ == PartitionErrorView::InsufficientSplitInput
            } else {
                &&& e@ == PartitionErrorView::NoDiscriminatingBit
                &&& forall|b: u32| !#[trigger] discriminates(byte_strings(keys@), b)
            },
        },
{
    if keys.len() < 2 {
        return Err(PartitionError::InsufficientSplitInput);
    }
    let ghost views = byte_strings(keys@);
    let max_len: usize = longest(keys);
    let mut bit: u32 = 0;
    loop
        invariant
            keys.len() >= 2,
            views == byte_strings(keys@),
            bits_numbered(views),
            forall|i: int| 0 <= i < keys.len() ==> (#[trigger] keys@[i])@.len() <= max_len,
            max_len > 0 ==> exists|i: int| 0 <= i < keys.len() && (#[trigger] keys@[i])@.len()
                == max_len,
            forall|b: u32| b < bit ==> !#[trigger] discriminates(views, b),
        decreases u32::MAX - bit,
    {
        if (bit / 8) as usize >= max_len {
            assert forall|b: u32| !#[trigger] discriminates(views, b) by {
                if b >= bit {
                    assert forall|i: int| 0 <= i < views.len() implies !crate::runtime::tree::bit_of(
                        #[trigger] views[i],
                        b,
                    ) by {
                        assert(views[i] == keys@[i]@);
                    }
                }
            }
            return Err(PartitionError::NoDiscriminatingBit);
        }
        if differs_at(keys, bit) {
            return Ok(bit);
        }
        if bit == u32::MAX {
            assert(forall|b: u32| !#[trigger] discriminates(views, b));
            let ghost w = choose|i: int| 0 <= i < keys.len() && (#[trigger] keys@[i])@.len()
                == max_len;
            assert(views[w] == keys@[w]@);
            assert(bit / 8 == 0x1fff_ffff);
            return Err(PartitionError::NoDiscriminatingBit);
        }
        bit = bit + 1;
    }
}

/// An observation of a leaf with its routing key.
#[derive(Debug, PartialEq, Eq)]
pub struct RoutedObservation {
    pub observation_id: String,
    pub routing_key: RoutingKey,
}

/// Where an observation goes in a split.
#[derive(Debug, PartialEq, Eq)]
pub struct RehomeTarget {
    pub observation_id: String,
    pub target_leaf_id: String,
}

/// A split of a leaf that is full, with the new place of each of its observations.
#[derive(Debug, PartialEq, Eq)]
pub struct CapacitySplitPlan {
    pub parent_leaf_id: String,
    pub left_child_leaf_id: String,
    pub right_child_leaf_id: String,
    pub bit_index: u32,
    pub rehome_targets: Vec<RehomeTarget>,
}

/// The bytes of the routing keys of a list of observations.
pub open spec fn routed_keys(routed: Seq<RoutedObservation>) -> Seq<Seq<u8>> {
    routed.map_values(|item: RoutedObservation| key_bytes(item.routing_key@))
}

/// Whether a plan splits `parent` at `bit` and sends each observation to the child that its bit
/// names.
pub open spec fn plan_splits(
    plan: CapacitySplitPlan,
    parent: Seq<char>,
    left: Seq<char>,
    right: Seq<char>,
    bit: u32,
    routed: Seq<RoutedObservation>,
) -> bool {
    &&& plan.parent_leaf_id@ == parent
    &&& plan.left_child_leaf_id@ == left
    &&& plan.right_child_leaf_id@ == right
    &&& plan.bit_index == bit
    &&& plan.rehome_targets@.len() == routed.len()
    &&& forall|i: int|
        0 <= i < routed.len() ==> {
            &&& (#[trigger] plan.rehome_targets@[i]).observation_id@ == routed[i].observation_id@
            &&& plan.rehome_targets@[i].target_leaf_id@ == (if crate::runtime::tree::bit_of(
                key_bytes(routed[i].routing_key@),
                bit,
            ) {
                right
            } else {
                left
            })
        }
}

/// Plans the split of a leaf that has reached its capacity; below capacity there is nothing to do.
pub fn plan_capacity_split(
    parent_leaf_id: &str,
    routed_observations: &[RoutedObservation],
    capacity: usize,
    left_child_leaf_id: &str,
    right_child_leaf_id: &str,
) -> (r: Result<Option<CapacitySplitPlan>, PartitionError>)
    requires
        bits_numbered(routed_keys(routed_observations@)),
    ensures
        ({
            let keys = routed_keys(routed_observations@);
            let ids = split_ids_error(parent_leaf_id@, left_child_leaf_id@, right_child_leaf_id@);
            if ids is Some {
                r is Err && ids == Some(r->Err_0@)
            } else if capacity == 0 {
                r is Err && r->Err_0@ == PartitionErrorView::InvalidSplitCapacity
            } else if routed_observations@.len() < capacity {
                r == Ok::<Option<CapacitySplitPlan>, PartitionError>(None)
            } else if routed_observations@.len() < 2 {
                r is Err && r->Err_0@ == PartitionErrorView::InsufficientSplitInput
            } else if forall|b: u32| !#[trigger] discriminates(keys, b) {
                r is Err && r->Err_0@ == PartitionErrorView::NoDiscriminatingBit
            } else {
                &&& r matches Ok(Some(plan))
                &&& first_discriminating(keys, plan.bit_index)
                &&& plan_splits(
                    plan,
                    parent_leaf_id@,
                    left_child_leaf_id@,
                    right_child_leaf_id@,
                    plan.bit_index,
                    routed_observations@,
                )
            }
        }),
{
    match validate_split_leaf_ids(parent_leaf_id, left_child_leaf_id, right_child_leaf_id) {
        Ok(_) => {},
        Err(e) => return Err(e),
    }
    if capacity == 0 {
        return Err(PartitionError::InvalidSplitCapacity);
    }
    if routed_observations.len() < capacity {
        return Ok(None);
    }
    if routed_observations.len() < 2 {
        return Err(PartitionError::InsufficientSplitInput);
    }
    let ghost keys = routed_keys(routed_observations@);
    let mut encoded_keys: Vec<Vec<u8>> = Vec::new();
    let mut i: usize = 0;
    while i < routed_observations.len()
        invariant
            i <= routed_observations.len(),
            keys == routed_keys(routed_observations@),
            encoded_keys.len() == i,
            forall|j: int| 0 <= j < i ==> (#[trigger] encoded_keys@[j])@ == keys[j],
        decreases routed_observations.len() - i,
    {
        let text = routed_observations[i].routing_key.encoded();
        let bytes = text.as_str().as_bytes_vec();
        assert(keys[i as int] == key_bytes(routed_observations@[i as int].routing_key@));
        encoded_keys.push(bytes);
        i = i + 1;
    }
    assert(byte_strings(encoded_keys@) =~= keys);
    let bit_index = match next_discriminating_bit(&encoded_keys) {
        Ok(b) => b,
        Err(e) => return Err(e),
    };
    let mut rehome_targets: Vec<RehomeTarget> = Vec::new();
    let mut k: usize = 0;
    while k < routed_observations.len()
        invariant
            k <= routed_observations.len(),
            encoded_keys.len() == routed_observations.len(),
            byte_strings(encoded_keys@) == keys,
            keys == routed_keys(routed_observations@),
            rehome_targets.len() == k,
            forall|j: int|
                0 <= j < k ==> {
                    &&& (#[trigger] rehome_targets@[j]).observation_id@
                        == routed_observations@[j].observation_id@
                    &&& rehome_targets@[j].target_leaf_id@ == (if crate::runtime::tree::bit_of(
                        key_bytes(routed_observations@[j].routing_key@),
                        bit_index,
                    ) {
                        right_child_leaf_id@
                    } else {
                        left_child_leaf_id@
                    })
                },
        decreases routed_observations.len() - k,
    {
        assert(keys[k as int] == encoded_keys@[k as int]@);
        assert(keys[k as int] == key_bytes(routed_observations@[k as int].routing_key@));
        let target = if bit_at(encoded_keys[k].as_slice(), bit_index) {
            right_child_leaf_id
        } else {
            left_child_leaf_id
        };
        rehome_targets.push(
            RehomeTarget {
                observation_id: routed_observations[k].observation_id.clone(),
                target_leaf_id: target.to_owned(),
            },
        );
        k = k + 1;
    }
    Ok(
        Some(
            CapacitySplitPlan {
                parent_leaf_id: parent_leaf_id.to_owned(),
                left_child_leaf_id: left_child_leaf_id.to_owned(),
                right_child_leaf_id: right_child_leaf_id.to_owned(),
                bit_index,
                rehome_targets,
            },
        ),
    )
}

/// What a routing key is made of.
#[derive(Debug, PartialEq, Eq)]
pub struct RoutingKeySpec {
    pub version: &'static str,
    pub axes: Vec<RoutingAxisSpec>,
}

/// One axis of a routing key: its name, the field it is read from and how it is written.
#[derive(Debug, PartialEq, Eq)]
pub struct RoutingAxisSpec {
    pub name: &'static str,
    pub source_field: &'static str,
    pub encoding: &'static str,
}

/// What an identity key is made of.
#[derive(Debug, PartialEq, Eq)]
pub struct IdentityKeySpec {
    pub version: &'static str,
    pub structure: &'static str,
    pub hash: &'static str,
    pub object_id_rule: &'static str,
    pub canonical_content: CanonicalContentSpec,
}

/// What belongs to the content that an identity key hashes.
#[derive(Debug, PartialEq, Eq)]
pub struct CanonicalContentSpec {
    pub included: Vec<&'static str>,
    pub exclude: Vec<&'static str>,
    pub normalization: Vec<&'static str>,
}

/// The name, source field and encoding of the axis at a place of the routing key.
pub open spec fn axis_spec(i: int) -> (Seq<char>, Seq<char>, Seq<char>) {
    if i == 0 {
        ("coarse_month"@, "published"@, "utc_month_2digit"@)
    } else if i == 1 {
        ("coarse_year"@, "published"@, "utc_year_4digit"@)
    } else if i == 2 {
        ("source"@, "source_system"@, "stable_source_ref"@)
    } else if i == 3 {
        ("container"@, "source_container"@, "adapter_declared_workspace_or_channel"@)
    } else {
        ("fine_published"@, "published"@, "utc_rfc3339_nanos"@)
    }
}

/// The routing keyspec: month, year, source, container, instant, in this order.
pub fn routing_keyspec() -> (r: RoutingKeySpec)
    ensures
        r.version@ == ROUTING_KEYSPEC_VERSION@,
        r.axes@.len() == 5,
        forall|i: int|
            0 <= i < 5 ==> ((#[trigger] r.axes@[i]).name@, r.axes@[i].source_field@, r.axes@[i]
                .encoding@) == axis_spec(i) && r.axes@[i].name@ == axis_name(i),
{
    RoutingKeySpec {
        version: ROUTING_KEYSPEC_VERSION,
        axes: vec![
            RoutingAxisSpec {
                name: "coarse_month",
                source_field: "published",
                encoding: "utc_month_2digit",
            },
            RoutingAxisSpec {
                name: "coarse_year",
                source_field: "published",
                encoding: "utc_year_4digit",
            },
            RoutingAxisSpec {
                name: "source",
                source_field: "source_system",
                encoding: "stable_source_ref",
            },
            RoutingAxisSpec {
                name: "container",
                source_field: "source_container",
                encoding: "adapter_declared_workspace_or_channel",
            },
            RoutingAxisSpec {
                name: "fine_published",
                source_field: "published",
                encoding: "utc_rfc3339_nanos",
            },
        ],
    }
}

/// The contents of a list of string slices.
pub open spec fn labels(list: Seq<&'static str>) -> Seq<Seq<char>> {
    list.map_values(|s: &'static str| s@)
}

/// The identity keyspec, with the boundary of the content that is hashed.
pub fn identity_keyspec() -> (r: IdentityKeySpec)
    ensures
        r.version@ == IDENTITY_KEYSPEC_VERSION@,
        r.structure@ == "source:object_id:sha256(canonical_content)"@,
        r.hash@ == "sha256"@,
        r.object_id_rule@ == "adapter_declared_source_specific_object_id"@,
        labels(r.canonical_content.included@) == seq![
            "sender"@,
            "body"@,
            "event_time"@,
            "attachment_sha256"@,
        ],
        labels(r.canonical_content.exclude@) == seq![
            "reactions"@,
            "edit_wrapper"@,
            "ingestion_meta"@,
        ],
        labels(r.canonical_content.normalization@) == seq![
            "unicode_nfc"@,
            "crlf_to_lf"@,
            "json_canonical"@,
            "rfc3339_utc_fixed_precision"@,
        ],
{
    IdentityKeySpec {
        version: IDENTITY_KEYSPEC_VERSION,
        structure: "source:object_id:sha256(canonical_content)",
        hash: "sha256",
        object_id_rule: "adapter_declared_source_specific_object_id",
        canonical_content: CanonicalContentSpec {
            included: vec!["sender", "body", "event_time", "attachment_sha256"],
            exclude: vec!["reactions", "edit_wrapper", "ingestion_meta"],
            normalization: vec![
                "unicode_nfc",
                "crlf_to_lf",
                "json_canonical",
                "rfc3339_utc_fixed_precision",
            ],
        },
    }
}

#[derive(Debug, PartialEq, Eq)]
pub struct InitializePartitionEvent {
    pub root_leaf_id: String,
    pub routing_keyspec_version: String,
    pub identity_keyspec_version: String,
}

#[derive(Debug, PartialEq, Eq)]
pub struct SplitPreparePartitionEvent {
    pub parent_leaf_id: String,
    pub left_child_leaf_id: String,
    pub right_child_leaf_id: String,
    pub reason: String,
}

#[derive(Debug, PartialEq, Eq)]
pub struct SplitCommitPartitionEvent {
    pub parent_leaf_id: String,
    pub left_child_leaf_id: String,
    pub right_child_leaf_id: String,
    pub bit_index: u32,
    pub reason: String,
}

#[derive(Debug, PartialEq, Eq)]
pub struct FailoverPartitionEvent {
    pub leaf_id: String,
    pub failover_id: String,
}

#[derive(Debug, PartialEq, Eq)]
pub struct RecoverPartitionEvent {
    pub leaf_id: String,
    pub failover_id: String,
}

/// One entry of the partition log.
#[derive(Debug, PartialEq, Eq)]
pub enum PartitionLogEvent {
    Initialize(InitializePartitionEvent),
    SplitPrepare(SplitPreparePartitionEvent),
    SplitCommit(SplitCommitPartitionEvent),
    Failover(FailoverPartitionEvent),
    Recover(RecoverPartitionEvent),
}

/// What an entry of the partition log says.
pub enum EventView {
    Initialize { root: Seq<char>, routing_version: Seq<char>, identity_version: Seq<char> },
    SplitPrepare { parent: Seq<char>, left: Seq<char>, right: Seq<char>, reason: Seq<char> },
    SplitCommit {
        parent: Seq<char>,
        left: Seq<char>,
        right: Seq<char>,
        bit: u32,
        reason: Seq<char>,
    },
    Failover { leaf: Seq<char>, spool: Seq<char> },
    Recover { leaf: Seq<char>, spool: Seq<char> },
}

impl View for SplitCommitPartitionEvent {
    type V = EventView;

    open spec fn view(&self) -> EventView {
        EventView::SplitCommit {
            parent: self.parent_leaf_id@,
            left: self.left_child_leaf_id@,
            right: self.right_child_leaf_id@,
            bit: self.bit_index,
            reason: self.reason@,
        }
    }
}

impl View for PartitionLogEvent {
    type V = EventView;

    open spec fn view(&self) -> EventView {
        match *self {
            PartitionLogEvent::Initialize(e) => EventView::Initialize {
                root: e.root_leaf_id@,
                routing_version: e.routing_keyspec_version@,
                identity_version: e.identity_keyspec_version@,
            },
            PartitionLogEvent::SplitPrepare(e) => EventView::SplitPrepare {
                parent: e.parent_leaf_id@,
                left: e.left_child_leaf_id@,
                right: e.right_child_leaf_id@,
                reason: e.reason@,
            },
            PartitionLogEvent::SplitCommit(e) => e@,
            PartitionLogEvent::Failover(e) => EventView::Failover {
                leaf: e.leaf_id@,
                spool: e.failover_id@,
            },
            PartitionLogEvent::Recover(e) => EventView::Recover {
                leaf: e.leaf_id@,
                spool: e.failover_id@,
            },
        }
    }
}

/// The entries of a list of log events.
pub open spec fn event_views(events: Seq<PartitionLogEvent>) -> Seq<EventView> {
    events.map_values(|e: PartitionLogEvent| e@)
}

#[derive(Debug, PartialEq, Eq)]
enum PartitionNode {
    Leaf { leaf_id: String },
    Split {
        parent_leaf_id: String,
        bit_index: u32,
        left: Box<PartitionNode>,
        right: Box<PartitionNode>,
    },
}

impl PartitionNode {
    spec fn shape(self) -> TreeView
        decreases self,
    {
        match self {
            PartitionNode::Leaf { leaf_id } => TreeView::Leaf { id: leaf_id@ },
            PartitionNode::Split { parent_leaf_id, bit_index, left, right } => TreeView::Split {
                parent: parent_leaf_id@,
                bit: bit_index,
                left: Box::new(left.shape()),
                right: Box::new(right.shape()),
            },
        }
    }

    fn copy(&self) -> (r: PartitionNode)
        ensures
            r.shape() == self.shape(),
        decreases self,
    {
        match self {
            PartitionNode::Leaf { leaf_id } => PartitionNode::Leaf { leaf_id: leaf_id.clone() },
            PartitionNode::Split { parent_leaf_id, bit_index, left, right } => {
                let left_copy = left.copy();
                let right_copy = right.copy();
                PartitionNode::Split {
                    parent_leaf_id: parent_leaf_id.clone(),
                    bit_index: *bit_index,
                    left: Box::new(left_copy),
                    right: Box::new(right_copy),
                }
            },
        }
    }

    fn route<'a>(&'a self, key_bytes: &[u8]) -> (r: &'a str)
        ensures
            r@ == crate::runtime::tree::route(self.shape(), key_bytes@),
        decreases self,
    {
        match self {
            PartitionNode::Leaf { leaf_id } => leaf_id.as_str(),
            PartitionNode::Split { parent_leaf_id, bit_index, left, right } => {
                if bit_at(key_bytes, *bit_index) {
                    right.route(key_bytes)
                } else {
                    left.route(key_bytes)
                }
            },
        }
    }

    fn collect_leaves(&self, leaves: &mut Vec<String>)
        ensures
            crate::text::strings(final(leaves)@) == crate::text::strings(old(leaves)@)
                + crate::runtime::tree::leaves(self.shape()),
        decreases self,
    {
        match self {
            PartitionNode::Leaf { leaf_id } => {
                leaves.push(leaf_id.clone());
                assert(crate::text::strings(leaves@) =~= crate::text::strings(old(leaves)@)
                    + crate::runtime::tree::leaves(self.shape()));
            },
            PartitionNode::Split { parent_leaf_id, bit_index, left, right } => {
                left.collect_leaves(leaves);
                right.collect_leaves(leaves);
                assert(crate::text::strings(leaves@) =~= crate::text::strings(old(leaves)@)
                    + crate::runtime::tree::leaves(self.shape()));
            },
        }
    }

    fn collect_candidate_leaves(&self, prefix: &[u8], leaves: &mut Vec<String>)
        ensures
            crate::text::strings(final(leaves)@) == crate::text::strings(old(leaves)@)
                + crate::runtime::tree::candidates(self.shape(), prefix@),
        decreases self,
    {
        match self {
            PartitionNode::Leaf { leaf_id } => {
                leaves.push(leaf_id.clone());
                assert(crate::text::strings(leaves@) =~= crate::text::strings(old(leaves)@)
                    + crate::runtime::tree::candidates(self.shape(), prefix@));
            },
            PartitionNode::Split { parent_leaf_id, bit_index, left, right } => {
                if prefix_covers_bit(prefix, *bit_index) {
                    if bit_at(prefix, *bit_index) {
                        right.collect_candidate_leaves(prefix, leaves);
                    } else {
                        left.collect_candidate_leaves(prefix, leaves);
                    }
                } else {
                    left.collect_leaves(leaves);
                    right.collect_leaves(leaves);
                    assert(crate::text::strings(leaves@) =~= crate::text::strings(old(leaves)@)
                        + crate::runtime::tree::candidates(self.shape(), prefix@));
                }
            },
        }
    }

    fn contains_current_leaf(&self, needle: &str) -> (r: bool)
        ensures
            r == crate::runtime::tree::leaves(self.shape()).contains(needle@),
        decreases self,
    {
        match self {
            PartitionNode::Leaf { leaf_id } => {
                assert(crate::runtime::tree::leaves(self.shape()) =~= seq![leaf_id@]);
                assert(seq![leaf_id@][0] == leaf_id@);
                str_eq(leaf_id.as_str(), needle)
            },
            PartitionNode::Split { parent_leaf_id, bit_index, left, right } => {
                proof {
                    crate::runtime::tree::concat_contains(
                        crate::runtime::tree::leaves(left.shape()),
                        crate::runtime::tree::leaves(right.shape()),
                        needle@,
                    );
                }
                left.contains_current_leaf(needle) || right.contains_current_leaf(needle)
            },
        }
    }

    fn contains_retired_parent(&self, needle: &str) -> (r: bool)
        ensures
            r == crate::runtime::tree::retired(self.shape(), needle@),
        decreases self,
    {
        match self {
            PartitionNode::Leaf { leaf_id } => false,
            PartitionNode::Split { parent_leaf_id, bit_index, left, right } => {
                str_eq(parent_leaf_id.as_str(), needle) || left.contains_retired_parent(needle)
                    || right.contains_retired_parent(needle)
            },
        }
    }

    fn replace_leaf_with_split(&mut self, commit: &SplitCommitPartitionEvent) -> (r: bool)
        ensures
            r == crate::runtime::tree::leaves(old(self).shape()).contains(commit.parent_leaf_id@),
            final(self).shape() == (if r {
                crate::runtime::tree::split_leaf(
                    old(self).shape(),
                    commit.parent_leaf_id@,
                    commit.left_child_leaf_id@,
                    commit.right_child_leaf_id@,
                    commit.bit_index,
                )
            } else {
                old(self).shape()
            }),
        decreases *old(self),
    {
        match self {
            PartitionNode::Leaf { leaf_id } => {
                let same = str_eq(leaf_id.as_str(), commit.parent_leaf_id.as_str());
                assert(crate::runtime::tree::leaves(old(self).shape()) =~= seq![leaf_id@]);
                assert(seq![leaf_id@][0] == leaf_id@);
                if same {
                    let left = PartitionNode::Leaf { leaf_id: commit.left_child_leaf_id.clone() };
                    let right = PartitionNode::Leaf { leaf_id: commit.right_child_leaf_id.clone() };
                    assert(left.shape() == TreeView::Leaf { id: commit.left_child_leaf_id@ });
                    assert(right.shape() == TreeView::Leaf { id: commit.right_child_leaf_id@ });
                    *self = PartitionNode::Split {
                        parent_leaf_id: commit.parent_leaf_id.clone(),
                        bit_index: commit.bit_index,
                        left: Box::new(left),
                        right: Box::new(right),
                    };
                    true
                } else {
                    false
                }
            },
            PartitionNode::Split { parent_leaf_id, bit_index, left, right } => {
                proof {
                    crate::runtime::tree::concat_contains(
                        crate::runtime::tree::leaves(left.shape()),
                        crate::runtime::tree::leaves(right.shape()),
                        commit.parent_leaf_id@,
                    );
                }
                if left.replace_leaf_with_split(commit) {
                    true
                } else {
                    right.replace_leaf_with_split(commit)
                }
            },
        }
    }
}

/// The tree of leaves that a partition log builds.
#[derive(Debug, PartialEq, Eq)]
pub struct PartitionTree {
    root: PartitionNode,
}

impl View for PartitionTree {
    type V = TreeView;

    closed spec fn view(&self) -> TreeView {
        self.root.shape()
    }
}

impl Clone for PartitionTree {
    fn clone(&self) -> (r: PartitionTree)
        ensures
            r@ == self@,
    {
        PartitionTree { root: self.root.copy() }
    }
}

/// The tree after a split was committed, or why the commit is refused.
pub open spec fn applied_commit(tree: TreeView, commit: EventView) -> Result<
    TreeView,
    PartitionErrorView,
> {
    match commit {
        EventView::SplitCommit { parent, left, right, bit, reason } => {
            let ids = split_ids_error(parent, left, right);
            if reason != PARTITION_SPLIT_REASON_CAPACITY@ {
                Err(PartitionErrorView::InvalidSplitReason)
            } else if ids is Some {
                Err(ids->0)
            } else if crate::runtime::tree::leaves(tree).contains(left) {
                Err(PartitionErrorView::DuplicateLeafId(left))
            } else if crate::runtime::tree::leaves(tree).contains(right) {
                Err(PartitionErrorView::DuplicateLeafId(right))
            } else if crate::runtime::tree::retired(tree, parent) {
                Err(PartitionErrorView::SplitParentAlreadyRetired(parent))
            } else if crate::runtime::tree::leaves(tree).contains(parent) {
                Ok(crate::runtime::tree::split_leaf(tree, parent, left, right, bit))
            } else {
                Err(PartitionErrorView::SplitParentNotFound(parent))
            }
        },
        _ => Ok(tree),
    }
}

/// What one log entry makes of the tree so far.
pub open spec fn replay_step(tree: Option<TreeView>, event: EventView) -> Result<
    Option<TreeView>,
    PartitionErrorView,
> {
    match event {
        EventView::Initialize { root, .. } => if tree is Some {
            Err(PartitionErrorView::DuplicateInitialize)
        } else if !valid_leaf_id(root) {
            Err(PartitionErrorView::InvalidLeafId(root))
        } else {
            Ok(Some(TreeView::Leaf { id: root }))
        },
        EventView::SplitCommit { .. } => match tree {
            None => Err(PartitionErrorView::MissingInitialize),
            Some(t) => match applied_commit(t, event) {
                Ok(after) => Ok(Some(after)),
                Err(e) => Err(e),
            },
        },
        _ => Ok(tree),
    }
}

/// The tree that a log builds entry by entry, `None` before the first leaf.
pub open spec fn replayed(events: Seq<EventView>) -> Result<Option<TreeView>, PartitionErrorView>
    decreases events.len(),
{
    if events.len() == 0 {
        Ok(None)
    } else {
        match replayed(events.drop_last()) {
            Ok(tree) => replay_step(tree, events.last()),
            Err(e) => Err(e),
        }
    }
}

/// The tree of a complete log, which holds one entry that initializes it.
pub open spec fn tree_of_log(events: Seq<EventView>) -> Result<TreeView, PartitionErrorView> {
    match replayed(events) {
        Ok(Some(tree)) => Ok(tree),
        Ok(None) => Err(PartitionErrorView::MissingInitialize),
        Err(e) => Err(e),
    }
}

/// The bytes that every key with these leading axes starts with.
pub open spec fn prefix_bytes(axes: Seq<Seq<char>>) -> Seq<u8> {
    vstd::utf8::encode_utf8(
        if axes.len() < 5 {
            encoded_axes(axes).push(ROUTING_AXIS_SEPARATOR)
        } else {
            encoded_axes(axes)
        },
    )
}

/// The leaves that can hold keys with these leading axes, or why the axes are refused.
pub open spec fn candidate_leaf_ids(tree: TreeView, axes: Seq<Seq<char>>) -> Result<
    Seq<Seq<char>>,
    PartitionErrorView,
> {
    let fault = axes_error(axes, 0);
    if axes.len() > 5 {
        Err(PartitionErrorView::InvalidRoutingPrefixAxisCount)
    } else if fault is Some {
        Err(fault->0)
    } else if axes.len() == 0 {
        Ok(crate::runtime::tree::leaves(tree))
    } else {
        Ok(crate::runtime::tree::candidates(tree, prefix_bytes(axes)))
    }
}

/// The contents of a list of strings, or the error in its place.
pub open spec fn strings_result(r: Result<Vec<String>, PartitionError>) -> Result<
    Seq<Seq<char>>,
    PartitionErrorView,
> {
    match r {
        Ok(list) => Ok(crate::text::strings(list@)),
        Err(e) => Err(e@),
    }
}

impl PartitionTree {
    pub fn from_events(events: &[PartitionLogEvent]) -> (r: Result<PartitionTree, PartitionError>)
        ensures
            crate::text::result_view(r) == tree_of_log(event_views(events@)),
            r matches Ok(tree) ==> crate::runtime::tree::unique_leaves(tree@),
    {
        let ghost views = event_views(events@);
        let mut tree: Option<PartitionTree> = None;
        let mut i: usize = 0;
        while i < events.len()
            invariant
                i <= events.len(),
                views == event_views(events@),
                replayed(views.take(i as int)) == Ok::<Option<TreeView>, PartitionErrorView>(
                    match tree {
                        Some(t) => Some(t@),
                        None => None,
                    },
                ),
                tree matches Some(t) ==> crate::runtime::tree::unique_leaves(t@),
            decreases events.len() - i,
        {
            assert(views.take(i + 1).drop_last() =~= views.take(i as int));
            assert(views.take(i + 1).last() == events@[i as int]@);
            proof {
                replay_stops_at_an_error(views, i + 1);
            }
            match &events[i] {
                PartitionLogEvent::Initialize(initialize) => {
                    if tree.is_some() {
                        return Err(PartitionError::DuplicateInitialize);
                    }
                    match validate_leaf_id(initialize.root_leaf_id.as_str()) {
                        Ok(_) => {},
                        Err(e) => return Err(e),
                    }
                    let root = PartitionNode::Leaf { leaf_id: initialize.root_leaf_id.clone() };
                    assert(crate::runtime::tree::leaves(root.shape()) =~= seq![
                        initialize.root_leaf_id@,
                    ]);
                    tree = Some(PartitionTree { root });
                },
                PartitionLogEvent::SplitCommit(commit) => {
                    match tree {
                        None => return Err(PartitionError::MissingInitialize),
                        Some(mut current) => {
                            match current.apply_split_commit(commit) {
                                Ok(_) => {},
                                Err(e) => return Err(e),
                            }
                            tree = Some(current);
                        },
                    }
                },
                PartitionLogEvent::SplitPrepare(_) => {},
                PartitionLogEvent::Failover(_) => {},
                PartitionLogEvent::Recover(_) => {},
            }
            i = i + 1;
        }
        assert(views.take(i as int) =~= views);
        match tree {
            Some(t) => Ok(t),
            None => Err(PartitionError::MissingInitialize),
        }
    }

    /// The leaf that the log was initialized with.
    pub fn root_leaf_id(&self) -> (r: &str)
        ensures
            r@ == (match self@ {
                TreeView::Leaf { id } => id,
                TreeView::Split { parent, .. } => parent,
            }),
    {
        match &self.root {
            PartitionNode::Leaf { leaf_id } => leaf_id.as_str(),
            PartitionNode::Split { parent_leaf_id, bit_index, left, right } =>
                parent_leaf_id.as_str(),
        }
    }

    /// The current leaf that a key belongs to.
    pub fn route<'a>(&'a self, key: &RoutingKey) -> (r: &'a str)
        ensures
            r@ == crate::runtime::tree::route(self@, key_bytes(key@)),
            crate::runtime::tree::leaves(self@).contains(r@),
    {
        let text = key.encoded();
        proof {
            crate::runtime::tree::route_is_a_leaf(self@, key_bytes(key@));
        }
        self.root.route(text.as_str().as_bytes())
    }

    /// The current leaves, from left to right.
    pub fn current_leaf_ids(&self) -> (r: Vec<String>)
        ensures
            crate::text::strings(r@) == crate::runtime::tree::leaves(self@),
    {
        let mut leaves: Vec<String> = Vec::new();
        self.root.collect_leaves(&mut leaves);
        assert(crate::text::strings(leaves@) =~= crate::runtime::tree::leaves(self@));
        leaves
    }

    /// The current leaves that can hold a key whose first axes are given.
    pub fn candidate_leaf_ids_for_prefix_axes(&self, axes: &[String]) -> (r: Result<
        Vec<String>,
        PartitionError,
    >)
        ensures
            strings_result(r) == candidate_leaf_ids(self@, crate::text::strings(axes@)),
    {
        if axes.len() > 5 {
            return Err(PartitionError::InvalidRoutingPrefixAxisCount);
        }
        match validate_axes(axes) {
            Ok(_) => {},
            Err(e) => return Err(e),
        }
        if axes.len() == 0 {
            return Ok(self.current_leaf_ids());
        }
        let mut prefix = join_strings(axes, separator_text().as_str());
        if axes.len() < 5 {
            prefix.push(ROUTING_AXIS_SEPARATOR);
        }
        let mut leaves: Vec<String> = Vec::new();
        self.root.collect_candidate_leaves(prefix.as_str().as_bytes(), &mut leaves);
        assert(crate::text::strings(leaves@) =~= crate::runtime::tree::candidates(
            self@,
            prefix_bytes(crate::text::strings(axes@)),
        ));
        Ok(leaves)
    }

    /// Replaces the parent of a committed split by its children; a refused commit changes nothing.
    pub fn apply_split_commit(&mut self, commit: &SplitCommitPartitionEvent) -> (r: Result<
        (),
        PartitionError,
    >)
        ensures
            match applied_commit(old(self)@, commit@) {
                Ok(after) => r is Ok && final(self)@ == after,
                Err(e) => r is Err && r->Err_0@ == e && final(self)@ == old(self)@,
            },
            crate::runtime::tree::unique_leaves(old(self)@) ==> crate::runtime::tree::unique_leaves(
                final(self)@,
            ),
    {
        if !str_eq(commit.reason.as_str(), PARTITION_SPLIT_REASON_CAPACITY) {
            return Err(PartitionError::InvalidSplitReason);
        }
        match validate_split_leaf_ids(
            commit.parent_leaf_id.as_str(),
            commit.left_child_leaf_id.as_str(),
            commit.right_child_leaf_id.as_str(),
        ) {
            Ok(_) => {},
            Err(e) => return Err(e),
        }
        if self.root.contains_current_leaf(commit.left_child_leaf_id.as_str()) {
            return Err(PartitionError::DuplicateLeafId(commit.left_child_leaf_id.clone()));
        }
        if self.root.contains_current_leaf(commit.right_child_leaf_id.as_str()) {
            return Err(PartitionError::DuplicateLeafId(commit.right_child_leaf_id.clone()));
        }
        if self.root.contains_retired_parent(commit.parent_leaf_id.as_str()) {
            return Err(PartitionError::SplitParentAlreadyRetired(commit.parent_leaf_id.clone()));
        }
        if self.root.replace_leaf_with_split(commit) {
            proof {
                if crate::runtime::tree::unique_leaves(old(self)@) {
                    crate::runtime::tree::split_keeps_leaves_unique(
                        old(self)@,
                        commit.parent_leaf_id@,
                        commit.left_child_leaf_id@,
                        commit.right_child_leaf_id@,
                        commit.bit_index,
                    );
                }
            }
            Ok(())
        } else {
            Err(PartitionError::SplitParentNotFound(commit.parent_leaf_id.clone()))
        }
    }
}

/// A replay that has failed stays failed.
proof fn replay_stops_at_an_error(events: Seq<EventView>, i: int)
    requires
        0 <= i <= events.len(),
    ensures
        replayed(events.take(i)) is Err ==> replayed(events) == replayed(events.take(i)),
    decreases events.len() - i,
{
    if i < events.len() {
        replay_stops_at_an_error(events, i + 1);
        assert(events.take(i + 1).drop_last() =~= events.take(i));
    } else {
        assert(events.take(i) =~= events);
    }
}

/// The log entry that a JSON value holds, or why it holds none.
pub open spec fn decoded_event(kind: Seq<char>, value: JsonView) -> Result<
    EventView,
    PartitionErrorView,
> {
    if kind == PARTITION_EVENT_INITIALIZE@ {
        match (
            crate::json::text_field(value, "root_leaf_id"@, 0, 3),
            crate::json::text_field(value, "routing_keyspec_version"@, 1, 3),
            crate::json::text_field(value, "identity_keyspec_version"@, 2, 3),
        ) {
            (Some(root), Some(routing_version), Some(identity_version)) => if valid_leaf_id(root) {
                Ok(EventView::Initialize { root, routing_version, identity_version })
            } else {
                Err(PartitionErrorView::InvalidLeafId(root))
            },
            _ => Err(PartitionErrorView::Json),
        }
    } else if kind == PARTITION_EVENT_SPLIT_PREPARE@ {
        match (
            crate::json::text_field(value, "parent_leaf_id"@, 0, 4),
            crate::json::text_field(value, "left_child_leaf_id"@, 1, 4),
            crate::json::text_field(value, "right_child_leaf_id"@, 2, 4),
            crate::json::text_field(value, "reason"@, 3, 4),
        ) {
            (Some(parent), Some(left), Some(right), Some(reason)) => {
                let ids = split_ids_error(parent, left, right);
                if ids is Some {
                    Err(ids->0)
                } else if reason != PARTITION_SPLIT_REASON_CAPACITY@ {
                    Err(PartitionErrorView::InvalidSplitReason)
                } else {
                    Ok(EventView::SplitPrepare { parent, left, right, reason })
                }
            },
            _ => Err(PartitionErrorView::Json),
        }
    } else if kind == PARTITION_EVENT_SPLIT_COMMIT@ {
        match (
            crate::json::text_field(value, "parent_leaf_id"@, 0, 5),
            crate::json::text_field(value, "left_child_leaf_id"@, 1, 5),
            crate::json::text_field(value, "right_child_leaf_id"@, 2, 5),
            crate::json::u32_field(value, "bit_index"@, 3, 5),
            crate::json::text_field(value, "reason"@, 4, 5),
        ) {
            (Some(parent), Some(left), Some(right), Some(bit), Some(reason)) => {
                let ids = split_ids_error(parent, left, right);
                if ids is Some {
                    Err(ids->0)
                } else if reason != PARTITION_SPLIT_REASON_CAPACITY@ {
                    Err(PartitionErrorView::InvalidSplitReason)
                } else {
                    Ok(EventView::SplitCommit { parent, left, right, bit, reason })
                }
            },
            _ => Err(PartitionErrorView::Json),
        }
    } else if kind == PARTITION_EVENT_FAILOVER@ || kind == PARTITION_EVENT_RECOVER@ {
        match (crate::json::text_field(value, "leaf_id"@, 0, 2), crate::json::text_field(value, "failover_id"@, 1, 2)) {
            (Some(leaf), Some(spool)) => if !valid_leaf_id(leaf) {
                Err(PartitionErrorView::InvalidLeafId(leaf))
            } else if !valid_failover_id(spool) {
                Err(PartitionErrorView::InvalidLeafId(spool))
            } else if kind == PARTITION_EVENT_FAILOVER@ {
                Ok(EventView::Failover { leaf, spool })
            } else {
                Ok(EventView::Recover { leaf, spool })
            },
            _ => Err(PartitionErrorView::Json),
        }
    } else {
        Err(PartitionErrorView::UnknownEventType(kind))
    }
}

/// Whether a text names a kind of log entry.
pub open spec fn known_event_type(kind: Seq<char>) -> bool {
    kind == PARTITION_EVENT_INITIALIZE@ || kind == PARTITION_EVENT_SPLIT_PREPARE@ || kind
        == PARTITION_EVENT_SPLIT_COMMIT@ || kind == PARTITION_EVENT_FAILOVER@ || kind
        == PARTITION_EVENT_RECOVER@
}

/// The fields of a kind of log entry.
pub open spec fn event_fields(kind: Seq<char>) -> Seq<Seq<char>> {
    if kind == PARTITION_EVENT_INITIALIZE@ {
        seq!["root_leaf_id"@, "routing_keyspec_version"@, "identity_keyspec_version"@]
    } else if kind == PARTITION_EVENT_SPLIT_PREPARE@ {
        seq!["parent_leaf_id"@, "left_child_leaf_id"@, "right_child_leaf_id"@, "reason"@]
    } else if kind == PARTITION_EVENT_SPLIT_COMMIT@ {
        seq![
            "parent_leaf_id"@,
            "left_child_leaf_id"@,
            "right_child_leaf_id"@,
            "bit_index"@,
            "reason"@,
        ]
    } else {
        seq!["leaf_id"@, "failover_id"@]
    }
}

fn fields_of_event(event_type: &str) -> (r: Vec<&'static str>)
    ensures
        crate::json::literals(r@) == event_fields(event_type@),
{
    let r = if str_eq(event_type, PARTITION_EVENT_INITIALIZE) {
        vec!["root_leaf_id", "routing_keyspec_version", "identity_keyspec_version"]
    } else if str_eq(event_type, PARTITION_EVENT_SPLIT_PREPARE) {
        vec!["parent_leaf_id", "left_child_leaf_id", "right_child_leaf_id", "reason"]
    } else if str_eq(event_type, PARTITION_EVENT_SPLIT_COMMIT) {
        vec!["parent_leaf_id", "left_child_leaf_id", "right_child_leaf_id", "bit_index", "reason"]
    } else {
        vec!["leaf_id", "failover_id"]
    };
    assert(crate::json::literals(r@) =~= event_fields(event_type@));
    r
}

/// The log entry that a text holds, or why it holds none; a text that gives a field of the entry
/// twice holds none.
pub open spec fn parsed_event(kind: Seq<char>, text: Seq<char>) -> Result<
    EventView,
    PartitionErrorView,
> {
    if !known_event_type(kind) {
        Err(PartitionErrorView::UnknownEventType(kind))
    } else {
        match crate::json::json_parse(text) {
            Some(value) => if crate::json::names_any_twice(text, 1, event_fields(kind)) {
                Err(PartitionErrorView::Json)
            } else {
                decoded_event(kind, value)
            },
            None => Err(PartitionErrorView::Json),
        }
    }
}

fn malformed_event() -> (r: PartitionError)
    ensures
        r@ == PartitionErrorView::Json,
{
    PartitionError::Json("partition event does not have the fields of its type".to_owned())
}

/// Reads a log entry of a given type from a JSON value.
pub fn decode_partition_event(event_type: &str, value: &Json) -> (r: Result<
    PartitionLogEvent,
    PartitionError,
>)
    ensures
        crate::text::result_view(r) == decoded_event(event_type@, value@),
{
    if str_eq(event_type, PARTITION_EVENT_INITIALIZE) {
        match (
            json_text_field(value, "root_leaf_id", 0, 3),
            json_text_field(value, "routing_keyspec_version", 1, 3),
            json_text_field(value, "identity_keyspec_version", 2, 3),
        ) {
            (Some(root_leaf_id), Some(routing_keyspec_version), Some(identity_keyspec_version)) => {
                match validate_leaf_id(root_leaf_id.as_str()) {
                    Ok(_) => {},
                    Err(e) => return Err(e),
                }
                Ok(
                    PartitionLogEvent::Initialize(
                        InitializePartitionEvent {
                            root_leaf_id,
                            routing_keyspec_version,
                            identity_keyspec_version,
                        },
                    ),
                )
            },
            _ => Err(malformed_event()),
        }
    } else if str_eq(event_type, PARTITION_EVENT_SPLIT_PREPARE) {
        match (
            json_text_field(value, "parent_leaf_id", 0, 4),
            json_text_field(value, "left_child_leaf_id", 1, 4),
            json_text_field(value, "right_child_leaf_id", 2, 4),
            json_text_field(value, "reason", 3, 4),
        ) {
            (
                Some(parent_leaf_id),
                Some(left_child_leaf_id),
                Some(right_child_leaf_id),
                Some(reason),
            ) => {
                match validate_split_leaf_ids(
                    parent_leaf_id.as_str(),
                    left_child_leaf_id.as_str(),
                    right_child_leaf_id.as_str(),
                ) {
                    Ok(_) => {},
                    Err(e) => return Err(e),
                }
                if !str_eq(reason.as_str(), PARTITION_SPLIT_REASON_CAPACITY) {
                    return Err(PartitionError::InvalidSplitReason);
                }
                Ok(
                    PartitionLogEvent::SplitPrepare(
                        SplitPreparePartitionEvent {
                            parent_leaf_id,
                            left_child_leaf_id,
                            right_child_leaf_id,
                            reason,
                        },
                    ),
                )
            },
            _ => Err(malformed_event()),
        }
    } else if str_eq(event_type, PARTITION_EVENT_SPLIT_COMMIT) {
        match (
            json_text_field(value, "parent_leaf_id", 0, 5),
            json_text_field(value, "left_child_leaf_id", 1, 5),
            json_text_field(value, "right_child_leaf_id", 2, 5),
            json_u32_field(value, "bit_index", 3, 5),
            json_text_field(value, "reason", 4, 5),
        ) {
            (
                Some(parent_leaf_id),
                Some(left_child_leaf_id),
                Some(right_child_leaf_id),
                Some(bit_index),
                Some(reason),
            ) => {
                match validate_split_leaf_ids(
                    parent_leaf_id.as_str(),
                    left_child_leaf_id.as_str(),
                    right_child_leaf_id.as_str(),
                ) {
                    Ok(_) => {},
                    Err(e) => return Err(e),
                }
                if !str_eq(reason.as_str(), PARTITION_SPLIT_REASON_CAPACITY) {
                    return Err(PartitionError::InvalidSplitReason);
                }
                Ok(
                    PartitionLogEvent::SplitCommit(
                        SplitCommitPartitionEvent {
                            parent_leaf_id,
                            left_child_leaf_id,
                            right_child_leaf_id,
                            bit_index,
                            reason,
                        },
                    ),
                )
            },
            _ => Err(malformed_event()),
        }
    } else if str_eq(event_type, PARTITION_EVENT_FAILOVER) || str_eq(
        event_type,
        PARTITION_EVENT_RECOVER,
    ) {
        match (
            json_text_field(value, "leaf_id", 0, 2),
            json_text_field(value, "failover_id", 1, 2),
        ) {
            (Some(leaf_id), Some(failover_id)) => {
                match validate_leaf_id(leaf_id.as_str()) {
                    Ok(_) => {},
                    Err(e) => return Err(e),
                }
                match validate_failover_id(failover_id.as_str()) {
                    Ok(_) => {},
                    Err(e) => return Err(e),
                }
                if str_eq(event_type, PARTITION_EVENT_FAILOVER) {
                    Ok(
                        PartitionLogEvent::Failover(
                            FailoverPartitionEvent { leaf_id, failover_id },
                        ),
                    )
                } else {
                    Ok(PartitionLogEvent::Recover(RecoverPartitionEvent { leaf_id, failover_id }))
                }
            },
            _ => Err(malformed_event()),
        }
    } else {
        Err(PartitionError::UnknownEventType(event_type.to_owned()))
    }
}

/// Reads a log entry of a given type from its JSON text.
pub fn parse_partition_event(event_type: &str, event_json: &str) -> (r: Result<
    PartitionLogEvent,
    PartitionError,
>)
    ensures
        crate::text::result_view(r) == parsed_event(event_type@, event_json@),
{
    let known = str_eq(event_type, PARTITION_EVENT_INITIALIZE) || str_eq(
        event_type,
        PARTITION_EVENT_SPLIT_PREPARE,
    ) || str_eq(event_type, PARTITION_EVENT_SPLIT_COMMIT) || str_eq(
        event_type,
        PARTITION_EVENT_FAILOVER,
    ) || str_eq(event_type, PARTITION_EVENT_RECOVER);
    if !known {
        return Err(PartitionError::UnknownEventType(event_type.to_owned()));
    }
    match parse_json(event_json) {
        Ok(value) => {
            if repeats_any_name(event_json, 1, &fields_of_event(event_type)) {
                return Err(
                    PartitionError::Json("partition event gives a field twice".to_owned()),
                );
            }
            decode_partition_event(event_type, &value)
        },
        Err(message) => Err(PartitionError::Json(message)),
    }
}

/// The JSON value that a log entry is written as.
pub open spec fn event_value(event: EventView) -> JsonView {
    match event {
        EventView::Initialize { root, routing_version, identity_version } => JsonView::Object(
            seq![
                ("root_leaf_id"@, JsonView::Str(root)),
                ("routing_keyspec_version"@, JsonView::Str(routing_version)),
                ("identity_keyspec_version"@, JsonView::Str(identity_version)),
            ],
        ),
        EventView::SplitPrepare { parent, left, right, reason } => JsonView::Object(
            seq![
                ("parent_leaf_id"@, JsonView::Str(parent)),
                ("left_child_leaf_id"@, JsonView::Str(left)),
                ("right_child_leaf_id"@, JsonView::Str(right)),
                ("reason"@, JsonView::Str(reason)),
            ],
        ),
        EventView::SplitCommit { parent, left, right, bit, reason } => JsonView::Object(
            seq![
                ("parent_leaf_id"@, JsonView::Str(parent)),
                ("left_child_leaf_id"@, JsonView::Str(left)),
                ("right_child_leaf_id"@, JsonView::Str(right)),
                ("bit_index"@, JsonView::UInt(bit as u64)),
                ("reason"@, JsonView::Str(reason)),
            ],
        ),
        EventView::Failover { leaf, spool } => JsonView::Object(
            seq![("leaf_id"@, JsonView::Str(leaf)), ("failover_id"@, JsonView::Str(spool))],
        ),
        EventView::Recover { leaf, spool } => JsonView::Object(
            seq![("leaf_id"@, JsonView::Str(leaf)), ("failover_id"@, JsonView::Str(spool))],
        ),
    }
}

/// The type under which a log entry is recorded.
pub open spec fn event_type_of(event: EventView) -> Seq<char> {
    match event {
        EventView::Initialize { .. } => PARTITION_EVENT_INITIALIZE@,
        EventView::SplitPrepare { .. } => PARTITION_EVENT_SPLIT_PREPARE@,
        EventView::SplitCommit { .. } => PARTITION_EVENT_SPLIT_COMMIT@,
        EventView::Failover { .. } => PARTITION_EVENT_FAILOVER@,
        EventView::Recover { .. } => PARTITION_EVENT_RECOVER@,
    }
}

/// Whether a log entry may be recorded.
pub open spec fn recordable(event: EventView) -> bool {
    match event {
        EventView::Initialize { root, .. } => valid_leaf_id(root),
        EventView::SplitPrepare { parent, left, right, reason } => split_ids_error(
            parent,
            left,
            right,
        ) is None && reason == PARTITION_SPLIT_REASON_CAPACITY@,
        EventView::SplitCommit { parent, left, right, bit, reason } => split_ids_error(
            parent,
            left,
            right,
        ) is None && reason == PARTITION_SPLIT_REASON_CAPACITY@,
        EventView::Failover { leaf, spool } => valid_leaf_id(leaf) && valid_failover_id(spool),
        EventView::Recover { leaf, spool } => valid_leaf_id(leaf) && valid_failover_id(spool),
    }
}

proof fn reveal_event_names()
    ensures
        "root_leaf_id"@.len() == 12,
        "routing_keyspec_version"@.len() == 23,
        "identity_keyspec_version"@.len() == 24,
        "parent_leaf_id"@.len() == 14,
        "left_child_leaf_id"@.len() == 18,
        "right_child_leaf_id"@.len() == 19,
        "bit_index"@.len() == 9,
        "reason"@.len() == 6,
        "leaf_id"@.len() == 7,
        "failover_id"@.len() == 11,
        PARTITION_EVENT_INITIALIZE@.len() == 10,
        PARTITION_EVENT_SPLIT_PREPARE@.len() == 13,
        PARTITION_EVENT_SPLIT_COMMIT@.len() == 12,
        PARTITION_EVENT_FAILOVER@.len() == 8,
        PARTITION_EVENT_RECOVER@.len() == 7,
{
    reveal_strlit("root_leaf_id");
    reveal_strlit("routing_keyspec_version");
    reveal_strlit("identity_keyspec_version");
    reveal_strlit("parent_leaf_id");
    reveal_strlit("left_child_leaf_id");
    reveal_strlit("right_child_leaf_id");
    reveal_strlit("bit_index");
    reveal_strlit("reason");
    reveal_strlit("leaf_id");
    reveal_strlit("failover_id");
    reveal_strlit("initialize");
    reveal_strlit("split_prepare");
    reveal_strlit("split_commit");
    reveal_strlit("failover");
    reveal_strlit("recover");
}

/// A recordable log entry is read back from the JSON value that it is written as.
pub proof fn written_event_reads_back(event: EventView)
    requires
        recordable(event),
    ensures
        decoded_event(event_type_of(event), event_value(event)) == Ok::<
            EventView,
            PartitionErrorView,
        >(event),
{
    reveal_event_names();
    reveal_with_fuel(crate::json::member_index, 6);
    let value = event_value(event);
    let members = value->Object_0;
    assert(members.drop_first().len() == members.len() - 1);
}

fn text_member(name: &str, value: &str) -> (r: (String, Json))
    ensures
        r.0@ == name@,
        r.1@ == JsonView::Str(value@),
{
    (name.to_owned(), Json::Str(value.to_owned()))
}

/// The JSON value of a log entry holds no fraction, no repeated name and no deep nesting.
proof fn event_value_is_plain(event: EventView)
    ensures
        crate::json::integers_only(event_value(event)),
        crate::json::distinct_names(event_value(event)),
        crate::json::nests_within(event_value(event), 127),
{
    reveal_event_names();
    reveal_with_fuel(crate::json::integers_only, 2);
    reveal_with_fuel(crate::json::distinct_names, 2);
    reveal_with_fuel(crate::json::nests_within, 2);
}

/// Writes the JSON value of a log entry; the entry can be read back from the text.
fn write_event(value: &Json, Ghost(event): Ghost<EventView>) -> (r: String)
    requires
        value@ == event_value(event),
        recordable(event),
    ensures
        r@ == crate::json::json_text(event_value(event)),
        parsed_event(event_type_of(event), r@) == Ok::<EventView, PartitionErrorView>(event),
{
    proof {
        event_value_is_plain(event);
        written_event_reads_back(event);
    }
    write_json(value)
}

/// What a writer of log entries gives back: the text of the entry, from which the entry is read
/// back, or the fault that forbids to record it.
pub open spec fn event_written(
    r: Result<String, PartitionError>,
    event: EventView,
    fault: Option<PartitionErrorView>,
) -> bool {
    match r {
        Ok(text) => {
            &&& fault is None
            &&& text@ == crate::json::json_text(event_value(event))
            &&& parsed_event(event_type_of(event), text@) == Ok::<EventView, PartitionErrorView>(
                event,
            )
        },
        Err(e) => fault == Some(e@),
    }
}

/// The entry that opens a partition log.
pub open spec fn initialize_entry(root: Seq<char>) -> EventView {
    EventView::Initialize {
        root,
        routing_version: ROUTING_KEYSPEC_VERSION@,
        identity_version: IDENTITY_KEYSPEC_VERSION@,
    }
}

/// Writes the entry that opens a partition log under given key rules.
fn write_initialize(root_leaf_id: &str, routing_version: &str, identity_version: &str) -> (r: String)
    requires
        valid_leaf_id(root_leaf_id@),
    ensures
        event_written(
            Ok(r),
            EventView::Initialize {
                root: root_leaf_id@,
                routing_version: routing_version@,
                identity_version: identity_version@,
            },
            None,
        ),
{
    let value = Json::Object(
        vec![
            text_member("root_leaf_id", root_leaf_id),
            text_member("routing_keyspec_version", routing_version),
            text_member("identity_keyspec_version", identity_version),
        ],
    );
    let ghost event = EventView::Initialize {
        root: root_leaf_id@,
        routing_version: routing_version@,
        identity_version: identity_version@,
    };
    assert(value@->Object_0 =~= event_value(event)->Object_0);
    write_event(&value, Ghost(event))
}

/// Writes the entry that opens a partition log, for a root leaf that is `lake:` and a UUID.
pub fn initialize_event_json(root_leaf_id: &str) -> (r: Result<String, PartitionError>)
    requires
        valid_leaf_id(root_leaf_id@),
    ensures
        event_written(r, initialize_entry(root_leaf_id@), None),
{
    Ok(write_initialize(root_leaf_id, ROUTING_KEYSPEC_VERSION, IDENTITY_KEYSPEC_VERSION))
}

/// Writes the entry that opens a partition log under new key rules, or says that the root leaf has
/// no valid name.
pub fn keyspec_initialize_event_json(
    root_leaf_id: &str,
    routing_version: &str,
    identity_version: &str,
) -> (r: Result<String, PartitionError>)
    ensures
        event_written(
            r,
            EventView::Initialize {
                root: root_leaf_id@,
                routing_version: routing_version@,
                identity_version: identity_version@,
            },
            if valid_leaf_id(root_leaf_id@) {
                None
            } else {
                Some(PartitionErrorView::InvalidLeafId(root_leaf_id@))
            },
        ),
{
    match validate_leaf_id(root_leaf_id) {
        Ok(_) => Ok(write_initialize(root_leaf_id, routing_version, identity_version)),
        Err(e) => Err(e),
    }
}

/// Writes the entry that opens a partition log, or says that the root leaf has no valid name.
pub fn checked_initialize_event_json(root_leaf_id: &str) -> (r: Result<String, PartitionError>)
    ensures
        event_written(
            r,
            initialize_entry(root_leaf_id@),
            if valid_leaf_id(root_leaf_id@) {
                None
            } else {
                Some(PartitionErrorView::InvalidLeafId(root_leaf_id@))
            },
        ),
{
    match validate_leaf_id(root_leaf_id) {
        Ok(_) => initialize_event_json(root_leaf_id),
        Err(e) => Err(e),
    }
}

/// Writes the entry that announces a split.
pub fn split_prepare_event_json(
    parent_leaf_id: &str,
    left_child_leaf_id: &str,
    right_child_leaf_id: &str,
) -> (r: Result<String, PartitionError>)
    ensures
        event_written(
            r,
            EventView::SplitPrepare {
                parent: parent_leaf_id@,
                left: left_child_leaf_id@,
                right: right_child_leaf_id@,
                reason: PARTITION_SPLIT_REASON_CAPACITY@,
            },
            split_ids_error(parent_leaf_id@, left_child_leaf_id@, right_child_leaf_id@),
        ),
{
    match validate_split_leaf_ids(parent_leaf_id, left_child_leaf_id, right_child_leaf_id) {
        Ok(_) => {},
        Err(e) => return Err(e),
    }
    let value = Json::Object(
        vec![
            text_member("parent_leaf_id", parent_leaf_id),
            text_member("left_child_leaf_id", left_child_leaf_id),
            text_member("right_child_leaf_id", right_child_leaf_id),
            text_member("reason", PARTITION_SPLIT_REASON_CAPACITY),
        ],
    );
    let ghost event = EventView::SplitPrepare {
        parent: parent_leaf_id@,
        left: left_child_leaf_id@,
        right: right_child_leaf_id@,
        reason: PARTITION_SPLIT_REASON_CAPACITY@,
    };
    assert(value@->Object_0 =~= event_value(event)->Object_0);
    Ok(write_event(&value, Ghost(event)))
}

/// Writes the entry that commits a split.
pub fn split_commit_event_json(
    parent_leaf_id: &str,
    left_child_leaf_id: &str,
    right_child_leaf_id: &str,
    bit_index: u32,
) -> (r: Result<String, PartitionError>)
    ensures
        event_written(
            r,
            EventView::SplitCommit {
                parent: parent_leaf_id@,
                left: left_child_leaf_id@,
                right: right_child_leaf_id@,
                bit: bit_index,
                reason: PARTITION_SPLIT_REASON_CAPACITY@,
            },
            split_ids_error(parent_leaf_id@, left_child_leaf_id@, right_child_leaf_id@),
        ),
{
    match validate_split_leaf_ids(parent_leaf_id, left_child_leaf_id, right_child_leaf_id) {
        Ok(_) => {},
        Err(e) => return Err(e),
    }
    let bit = Json::UInt(bit_index as u64);
    assert(bit@ == JsonView::UInt(bit_index as u64));
    let value = Json::Object(
        vec![
            text_member("parent_leaf_id", parent_leaf_id),
            text_member("left_child_leaf_id", left_child_leaf_id),
            text_member("right_child_leaf_id", right_child_leaf_id),
            ("bit_index".to_owned(), bit),
            text_member("reason", PARTITION_SPLIT_REASON_CAPACITY),
        ],
    );
    let ghost event = EventView::SplitCommit {
        parent: parent_leaf_id@,
        left: left_child_leaf_id@,
        right: right_child_leaf_id@,
        bit: bit_index,
        reason: PARTITION_SPLIT_REASON_CAPACITY@,
    };
    assert(value@->Object_0 =~= event_value(event)->Object_0);
    Ok(write_event(&value, Ghost(event)))
}

/// What is wrong with the names in a failover or recover entry.
pub open spec fn failover_fault(leaf: Seq<char>, spool: Seq<char>) -> Option<PartitionErrorView> {
    if !valid_leaf_id(leaf) {
        Some(PartitionErrorView::InvalidLeafId(leaf))
    } else if !valid_failover_id(spool) {
        Some(PartitionErrorView::InvalidLeafId(spool))
    } else {
        None
    }
}

/// Writes the entry that hands a leaf over to a spool.
pub fn failover_event_json(leaf_id: &str, failover_id: &str) -> (r: Result<String, PartitionError>)
    ensures
        event_written(
            r,
            EventView::Failover { leaf: leaf_id@, spool: failover_id@ },
            failover_fault(leaf_id@, failover_id@),
        ),
{
    match validate_leaf_id(leaf_id) {
        Ok(_) => {},
        Err(e) => return Err(e),
    }
    match validate_failover_id(failover_id) {
        Ok(_) => {},
        Err(e) => return Err(e),
    }
    let value = Json::Object(
        vec![text_member("leaf_id", leaf_id), text_member("failover_id", failover_id)],
    );
    let ghost event = EventView::Failover { leaf: leaf_id@, spool: failover_id@ };
    assert(value@->Object_0 =~= event_value(event)->Object_0);
    Ok(write_event(&value, Ghost(event)))
}

/// Writes the entry that takes a leaf back from a spool.
pub fn recover_event_json(leaf_id: &str, failover_id: &str) -> (r: Result<String, PartitionError>)
    ensures
        event_written(
            r,
            EventView::Recover { leaf: leaf_id@, spool: failover_id@ },
            failover_fault(leaf_id@, failover_id@),
        ),
{
    match validate_leaf_id(leaf_id) {
        Ok(_) => {},
        Err(e) => return Err(e),
    }
    match validate_failover_id(failover_id) {
        Ok(_) => {},
        Err(e) => return Err(e),
    }
    let value = Json::Object(
        vec![text_member("leaf_id", leaf_id), text_member("failover_id", failover_id)],
    );
    let ghost event = EventView::Recover { leaf: leaf_id@, spool: failover_id@ };
    assert(value@->Object_0 =~= event_value(event)->Object_0);
    Ok(write_event(&value, Ghost(event)))
}

/// The JSON value of one routing axis.
pub open spec fn axis_value(i: int) -> JsonView {
    JsonView::Object(
        seq![
            ("name"@, JsonView::Str(axis_spec(i).0)),
            ("source_field"@, JsonView::Str(axis_spec(i).1)),
            ("encoding"@, JsonView::Str(axis_spec(i).2)),
        ],
    )
}

/// The JSON value of the routing keyspec.
pub open spec fn routing_keyspec_value() -> JsonView {
    JsonView::Object(
        seq![
            ("version"@, JsonView::Str(ROUTING_KEYSPEC_VERSION@)),
            ("axes"@, JsonView::Array(Seq::new(5, |i: int| axis_value(i)))),
        ],
    )
}

/// Writes the routing keyspec as JSON.
pub fn routing_keyspec_json() -> (r: Result<String, PartitionError>)
    ensures
        r is Ok,
        r->Ok_0@ == crate::json::json_text(routing_keyspec_value()),
{
    let spec = routing_keyspec();
    let mut axes: Vec<Json> = Vec::new();
    let mut i: usize = 0;
    while i < spec.axes.len()
        invariant
            i <= spec.axes.len(),
            spec.axes@.len() == 5,
            forall|j: int|
                0 <= j < 5 ==> ((#[trigger] spec.axes@[j]).name@, spec.axes@[j].source_field@, spec
                    .axes@[j].encoding@) == axis_spec(j),
            axes.len() == i,
            forall|j: int| 0 <= j < i ==> (#[trigger] axes@[j])@ == axis_value(j),
        decreases spec.axes.len() - i,
    {
        let axis = Json::Object(
            vec![
                text_member("name", spec.axes[i].name),
                text_member("source_field", spec.axes[i].source_field),
                text_member("encoding", spec.axes[i].encoding),
            ],
        );
        assert(axis@->Object_0 =~= axis_value(i as int)->Object_0);
        axes.push(axis);
        i = i + 1;
    }
    let list = Json::Array(axes);
    assert(list@->Array_0 =~= Seq::new(5, |j: int| axis_value(j)));
    let value = Json::Object(
        vec![text_member("version", spec.version), ("axes".to_owned(), list)],
    );
    assert(value@->Object_0 =~= routing_keyspec_value()->Object_0);
    proof {
        reveal_with_fuel(crate::json::integers_only, 4);
        reveal_with_fuel(crate::json::nests_within, 4);
    }
    Ok(write_json(&value))
}

fn json_labels(items: &Vec<&'static str>) -> (r: Json)
    ensures
        r@ == crate::json::text_list(labels(items@)),
{
    let mut out: Vec<Json> = Vec::new();
    let mut i: usize = 0;
    while i < items.len()
        invariant
            i <= items.len(),
            out.len() == i,
            forall|j: int| 0 <= j < i ==> (#[trigger] out@[j])@ == JsonView::Str(items@[j]@),
        decreases items.len() - i,
    {
        out.push(Json::Str(items[i].to_owned()));
        i = i + 1;
    }
    let r = Json::Array(out);
    assert(r@->Array_0 =~= crate::json::text_list(labels(items@))->Array_0);
    r
}

/// The JSON value of the identity keyspec.
pub open spec fn identity_keyspec_value() -> JsonView {
    JsonView::Object(
        seq![
            ("version"@, JsonView::Str(IDENTITY_KEYSPEC_VERSION@)),
            ("structure"@, JsonView::Str("source:object_id:sha256(canonical_content)"@)),
            ("hash"@, JsonView::Str("sha256"@)),
            ("object_id_rule"@, JsonView::Str("adapter_declared_source_specific_object_id"@)),
            (
                "canonical_content"@,
                JsonView::Object(
                    seq![
                        (
                            "include"@,
                            crate::json::text_list(
                                seq!["sender"@, "body"@, "event_time"@, "attachment_sha256"@],
                            ),
                        ),
                        (
                            "exclude"@,
                            crate::json::text_list(seq!["reactions"@, "edit_wrapper"@, "ingestion_meta"@]),
                        ),
                        (
                            "normalization"@,
                            crate::json::text_list(
                                seq![
                                    "unicode_nfc"@,
                                    "crlf_to_lf"@,
                                    "json_canonical"@,
                                    "rfc3339_utc_fixed_precision"@,
                                ],
                            ),
                        ),
                    ],
                ),
            ),
        ],
    )
}

/// Writes the identity keyspec as JSON.
pub fn identity_keyspec_json() -> (r: Result<String, PartitionError>)
    ensures
        r is Ok,
        r->Ok_0@ == crate::json::json_text(identity_keyspec_value()),
{
    let spec = identity_keyspec();
    let content = Json::Object(
        vec![
            ("include".to_owned(), json_labels(&spec.canonical_content.included)),
            ("exclude".to_owned(), json_labels(&spec.canonical_content.exclude)),
            ("normalization".to_owned(), json_labels(&spec.canonical_content.normalization)),
        ],
    );
    assert(content@->Object_0 =~= identity_keyspec_value()->Object_0[4].1->Object_0);
    let value = Json::Object(
        vec![
            text_member("version", spec.version),
            text_member("structure", spec.structure),
            text_member("hash", spec.hash),
            text_member("object_id_rule", spec.object_id_rule),
            ("canonical_content".to_owned(), content),
        ],
    );
    assert(value@->Object_0 =~= identity_keyspec_value()->Object_0);
    proof {
        reveal_with_fuel(crate::json::integers_only, 4);
        reveal_with_fuel(crate::json::nests_within, 4);
    }
    Ok(write_json(&value))
}

/// The axes of the routing key of an instant, a source and a container.
pub open spec fn routing_axes(
    published: (i64, u32),
    source: Seq<char>,
    container: Seq<char>,
) -> Seq<Seq<char>> {
    seq![
        crate::text::padded(crate::time::month_of(published.0 as int) as nat, 2),
        crate::text::padded_signed(crate::time::year_of(published.0 as int), 4),
        source,
        container,
        crate::time::rfc3339_nanos(published.0, published.1),
    ]
}

/// The routing key of an instant, a source and a container: its UTC month and year, the source, the
/// container and the instant itself.
pub fn routing_key(published: Timestamp, source: &str, container: &str) -> (r: Result<
    RoutingKey,
    PartitionError,
>)
    ensures
        crate::text::result_view(r) == routing_key_of(
            routing_axes(published@, source@, container@),
        ),
        r is Ok <==> valid_axis(source@) && valid_axis(container@),
{
    let (year, month) = published.year_month();
    let axes: Vec<String> = vec![
        padded_text(month as u64, 2),
        padded_signed_text(year, 4),
        source.to_owned(),
        container.to_owned(),
        published.rfc3339_nanos(),
    ];
    let ghost expected = routing_axes(published@, source@, container@);
    assert(crate::text::strings(axes@) =~= expected);
    proof {
        assert(expected[4].len() > 0);
        assert(!expected[4].contains(ROUTING_AXIS_SEPARATOR)) by {
            if expected[4].contains(ROUTING_AXIS_SEPARATOR) {
                let k = choose|k: int|
                    0 <= k < expected[4].len() && expected[4][k] == ROUTING_AXIS_SEPARATOR;
                assert(crate::time::rfc3339_char(expected[4][k]));
            }
        }
        padded_is_an_axis(month as nat, 2);
        padded_signed_is_an_axis(year as int, 4);
        reveal_with_fuel(axes_error, 6);
    }
    RoutingKey::from_axes(axes)
}

proof fn decimal_digits(n: nat)
    ensures
        crate::text::decimal(n).len() > 0,
        forall|i: int|
            0 <= i < crate::text::decimal(n).len() ==> '0' <= #[trigger] crate::text::decimal(n)[i]
                <= '9',
    decreases n,
{
    if n >= 10 {
        decimal_digits(n / 10);
    }
}

/// A number in decimal notation can stand on an axis.
pub proof fn padded_is_an_axis(n: nat, width: nat)
    ensures
        valid_axis(crate::text::padded(n, width)),
{
    decimal_digits(n);
    let p = crate::text::padded(n, width);
    let d = crate::text::decimal(n);
    if p.contains(ROUTING_AXIS_SEPARATOR) {
        let k = choose|k: int| 0 <= k < p.len() && p[k] == ROUTING_AXIS_SEPARATOR;
        if k >= p.len() - d.len() {
            assert(p[k] == d[k - (p.len() - d.len())]);
        }
    }
}

/// An integer in decimal notation can stand on an axis.
pub proof fn padded_signed_is_an_axis(n: int, width: nat)
    ensures
        valid_axis(crate::text::padded_signed(n, width)),
{
    if n < 0 {
        let w: nat = if width > 0 {
            (width - 1) as nat
        } else {
            0
        };
        padded_is_an_axis((-n) as nat, w);
        let p = crate::text::padded((-n) as nat, w);
        let q = crate::text::padded_signed(n, width);
        if q.contains(ROUTING_AXIS_SEPARATOR) {
            let k = choose|k: int| 0 <= k < q.len() && q[k] == ROUTING_AXIS_SEPARATOR;
            assert(p.contains(q[k]) || q[k] == '-') by {
                if k > 0 {
                    assert(p[k - 1] == q[k]);
                }
            }
        }
    } else {
        padded_is_an_axis(n as nat, width);
    }
}

/// What routes an observation: the system it came from and the container it names.
pub open spec fn routing_source(observation: Observation) -> Result<
    (Seq<char>, Seq<char>),
    PartitionErrorView,
> {
    match observation.source_system {
        None => Err(PartitionErrorView::EmptyRoutingAxis("source"@)),
        Some(source) => match crate::json::as_text(
            crate::json::member(observation.meta@, "source_container"@),
        ) {
            None => Err(PartitionErrorView::EmptyRoutingAxis("container"@)),
            Some(container) => Ok((source@, container)),
        },
    }
}

/// The routing key of an observation.
pub fn routing_key_from_observation(observation: &Observation) -> (r: Result<
    RoutingKey,
    PartitionError,
>)
    ensures
        match routing_source(*observation) {
            Err(e) => r is Err && r->Err_0@ == e,
            Ok((source, container)) => {
                &&& crate::text::result_view(r) == routing_key_of(
                    routing_axes(observation.published@, source, container),
                )
                &&& r is Ok <==> valid_axis(source) && valid_axis(container)
            },
        },
{
    match &observation.source_system {
        None => Err(PartitionError::EmptyRoutingAxis { axis: "source" }),
        Some(source) => match observation.meta.get_str("source_container") {
            None => Err(PartitionError::EmptyRoutingAxis { axis: "container" }),
            Some(container) => routing_key(observation.published, source.as_str(), container),
        },
    }
}

/// How far a split has come.
#[derive(Debug, Clone, Copy, PartialEq, Eq, Structural)]
pub enum SplitCutoverStep {
    Prepared,
    CaughtUp,
    WriteBarrierEntered,
    Committed,
}

/// The name of a step.
pub open spec fn step_name(step: SplitCutoverStep) -> Seq<char> {
    match step {
        SplitCutoverStep::Prepared => "prepared"@,
        SplitCutoverStep::CaughtUp => "caught_up"@,
        SplitCutoverStep::WriteBarrierEntered => "write_barrier_entered"@,
        SplitCutoverStep::Committed => "committed"@,
    }
}

impl SplitCutoverStep {
    fn as_str(self) -> (r: &'static str)
        ensures
            r@ == step_name(self),
    {
        match self {
            SplitCutoverStep::Prepared => "prepared",
            SplitCutoverStep::CaughtUp => "caught_up",
            SplitCutoverStep::WriteBarrierEntered => "write_barrier_entered",
            SplitCutoverStep::Committed => "committed",
        }
    }
}

/// A split on its way: prepared, caught up, behind the write barrier, committed, in this order.
#[derive(Debug, PartialEq, Eq)]
pub struct SplitCutoverProtocol {
    plan: CapacitySplitPlan,
    step: SplitCutoverStep,
}

/// The error of an operation that needs another step.
pub open spec fn out_of_order(
    expected: SplitCutoverStep,
    actual: SplitCutoverStep,
) -> PartitionErrorView {
    PartitionErrorView::SplitCutoverOutOfOrder {
        expected: step_name(expected),
        actual: step_name(actual),
    }
}

impl SplitCutoverProtocol {
    pub closed spec fn at(&self) -> SplitCutoverStep {
        self.step
    }

    pub closed spec fn planned(&self) -> CapacitySplitPlan {
        self.plan
    }

    pub fn prepare(plan: CapacitySplitPlan) -> (r: SplitCutoverProtocol)
        ensures
            r.planned() == plan,
            r.at() == SplitCutoverStep::Prepared,
    {
        SplitCutoverProtocol { plan, step: SplitCutoverStep::Prepared }
    }

    pub fn catch_up(&mut self) -> (r: Result<(), PartitionError>)
        ensures
            final(self).planned() == old(self).planned(),
            if old(self).at() == SplitCutoverStep::Prepared {
                r is Ok && final(self).at() == SplitCutoverStep::CaughtUp
            } else {
                r is Err && r->Err_0@ == out_of_order(SplitCutoverStep::Prepared, old(self).at())
                    && final(self).at() == old(self).at()
            },
    {
        match self.require_step(SplitCutoverStep::Prepared) {
            Ok(_) => {},
            Err(e) => return Err(e),
        }
        self.step = SplitCutoverStep::CaughtUp;
        Ok(())
    }

    pub fn enter_write_barrier(&mut self) -> (r: Result<(), PartitionError>)
        ensures
            final(self).planned() == old(self).planned(),
            if old(self).at() == SplitCutoverStep::CaughtUp {
                r is Ok && final(self).at() == SplitCutoverStep::WriteBarrierEntered
            } else {
                r is Err && r->Err_0@ == out_of_order(SplitCutoverStep::CaughtUp, old(self).at())
                    && final(self).at() == old(self).at()
            },
    {
        match self.require_step(SplitCutoverStep::CaughtUp) {
            Ok(_) => {},
            Err(e) => return Err(e),
        }
        self.step = SplitCutoverStep::WriteBarrierEntered;
        Ok(())
    }

    /// Commits the split; the event is the one to record in the partition log.
    pub fn commit(&mut self) -> (r: Result<SplitCommitPartitionEvent, PartitionError>)
        ensures
            final(self).planned() == old(self).planned(),
            if old(self).at() == SplitCutoverStep::WriteBarrierEntered {
                r is Ok && final(self).at() == SplitCutoverStep::Committed && r->Ok_0@
                    == committed_split(old(self).planned())
            } else {
                r is Err && r->Err_0@ == out_of_order(
                    SplitCutoverStep::WriteBarrierEntered,
                    old(self).at(),
                ) && final(self).at() == old(self).at()
            },
    {
        match self.require_step(SplitCutoverStep::WriteBarrierEntered) {
            Ok(_) => {},
            Err(e) => return Err(e),
        }
        self.step = SplitCutoverStep::Committed;
        Ok(
            SplitCommitPartitionEvent {
                parent_leaf_id: self.plan.parent_leaf_id.clone(),
                left_child_leaf_id: self.plan.left_child_leaf_id.clone(),
                right_child_leaf_id: self.plan.right_child_leaf_id.clone(),
                bit_index: self.plan.bit_index,
                reason: PARTITION_SPLIT_REASON_CAPACITY.to_owned(),
            },
        )
    }

    pub fn step(&self) -> (r: SplitCutoverStep)
        ensures
            r == self.at(),
    {
        self.step
    }

    pub fn plan(&self) -> (r: &CapacitySplitPlan)
        ensures
            *r == self.planned(),
    {
        &self.plan
    }

    fn require_step(&self, expected: SplitCutoverStep) -> (r: Result<(), PartitionError>)
        ensures
            match r {
                Ok(_) => self.step == expected,
                Err(e) => self.step != expected && e@ == out_of_order(expected, self.step),
            },
    {
        if self.step == expected {
            Ok(())
        } else {
            Err(
                PartitionError::SplitCutoverOutOfOrder {
                    expected: expected.as_str(),
                    actual: self.step.as_str(),
                },
            )
        }
    }
}

/// The log entry that commits a planned split.
pub open spec fn committed_split(plan: CapacitySplitPlan) -> EventView {
    EventView::SplitCommit {
        parent: plan.parent_leaf_id@,
        left: plan.left_child_leaf_id@,
        right: plan.right_child_leaf_id@,
        bit: plan.bit_index,
        reason: PARTITION_SPLIT_REASON_CAPACITY@,
    }
}

} // verus!
