//! The tuple-space wire rules: which field values a written tuple may carry,
//! how a read or take template becomes a match pattern, how a lease request
//! is read, and which status a tuple-space failure is answered with.
//!
//! A float travels as its IEEE-754 bit pattern, so that fields are plain
//! values that compare and hash as integers do.

use vstd::prelude::*;

use crate::text::{concat, owned};

verus! {

/// A field value as it arrives in a request.
pub enum WireValue {
    Integer(i64),
    Float(u64),
    String(String),
    Boolean(bool),
    Binary(Vec<u8>),
    Null,
    Wildcard,
}

/// A field of a request tuple: the value may be missing.
pub struct WireField {
    pub value: Option<WireValue>,
}

/// A lease request: a time to live (seconds and nanoseconds), an owner
/// (empty for none) and whether the lease may be renewed.
pub struct WireLease {
    pub ttl: Option<(i64, i32)>,
    pub owner: String,
    pub renewable: bool,
}

/// A tuple as it arrives in a request.
pub struct WireTuple {
    pub fields: Vec<WireField>,
    pub lease: Option<WireLease>,
}

/// A field of a stored tuple.
pub enum TupleField {
    Integer(i64),
    Float(u64),
    String(String),
    Boolean(bool),
    Binary(Vec<u8>),
    Null,
}

/// One position of a match pattern.
pub enum PatternField {
    Wildcard,
    Exact(TupleField),
}

/// The lease a written tuple is stored with.
pub struct LeaseTerms {
    pub ttl_seconds: i64,
    pub ttl_nanos: i32,
    pub owner: Option<String>,
    pub renewable: bool,
}

/// A tuple ready to be written: its fields and its lease.
pub struct TupleRecord {
    pub fields: Vec<TupleField>,
    pub lease: Option<LeaseTerms>,
}

/// How the tuple space answers a request that fails.
pub enum TupleStatus {
    InvalidArgument(String),
    NotFound(String),
    FailedPrecondition(String),
    Unimplemented(String),
    Internal(String),
}

/// A failure reported by a tuple-space provider; `Other` carries the
/// provider's own description of any other failure.
pub enum TupleSpaceFailure {
    NotFound,
    PatternError(String),
    LeaseError(String),
    InvalidConfiguration(String),
    NotImplemented(String),
    NotSupported(String),
    Other(String),
}

/// The stored field `f` holds the value `w`.
pub open spec fn holds_value(w: WireValue, f: TupleField) -> bool {
    match (w, f) {
        (WireValue::Integer(a), TupleField::Integer(b)) => a == b,
        (WireValue::Float(a), TupleField::Float(b)) => a == b,
        (WireValue::String(a), TupleField::String(b)) => a@ == b@,
        (WireValue::Boolean(a), TupleField::Boolean(b)) => a == b,
        (WireValue::Binary(a), TupleField::Binary(b)) => a@ == b@,
        (WireValue::Null, TupleField::Null) => true,
        _ => false,
    }
}

/// A field can be stored: it has a value, and the value is not a wildcard.
pub open spec fn storable(f: WireField) -> bool {
    f.value is Some && !(f.value->0 is Wildcard)
}

/// Why a field cannot be stored.
pub open spec fn unstorable_reason(f: WireField) -> Seq<char> {
    match f.value {
        Some(WireValue::Wildcard) => "Wildcard cannot be used as a tuple value (only in patterns)"@,
        _ => "TupleField must have a value"@,
    }
}

/// A template field can be matched on: it has a value or is a wildcard.
pub open spec fn matchable(f: WireField) -> bool {
    f.value is Some
}

/// The pattern position `p` stands for the template value `w`.
pub open spec fn pattern_for(w: WireValue, p: PatternField) -> bool {
    match w {
        WireValue::Wildcard => p is Wildcard,
        _ => p matches PatternField::Exact(f) && holds_value(w, f),
    }
}

/// `k` is the first position in `s` whose field cannot be stored.
pub open spec fn first_unstorable(s: Seq<WireField>, k: int) -> bool {
    &&& 0 <= k < s.len()
    &&& !storable(s[k])
    &&& forall|j: int| 0 <= j < k ==> storable(s[j])
}

/// The lease terms `t` are those requested by `l`.
pub open spec fn lease_terms_of(l: WireLease, t: LeaseTerms) -> bool {
    &&& l.ttl matches Some(ttl) && t.ttl_seconds == ttl.0 && t.ttl_nanos == ttl.1
    &&& (l.owner@.len() == 0 ==> t.owner is None)
    &&& (l.owner@.len() > 0 ==> (t.owner matches Some(o) && o@ == l.owner@))
    &&& t.renewable == l.renewable
}

/// The lease stored for a request that asks for `l`.
pub open spec fn lease_requested(l: Option<WireLease>, t: Option<LeaseTerms>) -> bool {
    match l {
        Some(wl) => if wl.ttl is Some {
            t matches Some(x) && lease_terms_of(wl, x)
        } else {
            t is None
        },
        None => t is None,
    }
}

/// The status message for a provider failure, with its kind.
pub open spec fn failure_status(e: TupleSpaceFailure, s: TupleStatus) -> bool {
    match e {
        TupleSpaceFailure::NotFound => s matches TupleStatus::NotFound(m) && m@ == "Tuple not found"@,
        TupleSpaceFailure::PatternError(d) => s matches TupleStatus::InvalidArgument(m) && m@ == "Pattern error: "@ + d@,
        TupleSpaceFailure::LeaseError(d) => s matches TupleStatus::FailedPrecondition(m) && m@ == "Lease error: "@ + d@,
        TupleSpaceFailure::InvalidConfiguration(d) => s matches TupleStatus::InvalidArgument(m) && m@ == "Invalid configuration: "@ + d@,
        TupleSpaceFailure::NotImplemented(d) => s matches TupleStatus::Unimplemented(m) && m@ == d@,
        TupleSpaceFailure::NotSupported(d) => s matches TupleStatus::Unimplemented(m) && m@ == d@,
        TupleSpaceFailure::Other(d) => s matches TupleStatus::Internal(m) && m@ == "TupleSpace error: "@ + d@,
    }
}

/// A copy of a byte string.
fn copy_bytes(b: &Vec<u8>) -> (r: Vec<u8>)
    ensures
        r@ == b@,
{
    let mut r: Vec<u8> = Vec::new();
    let mut i: usize = 0;
    while i < b.len()
        invariant
            i <= b.len(),
            r@ == b@.subrange(0, i as int),
        decreases b.len() - i,
    {
        r.push(b[i]);
        i = i + 1;
    }
    r
}

/// The stored field holding a non-wildcard wire value.
fn stored_value(w: &WireValue) -> (f: TupleField)
    requires
        !(*w is Wildcard),
    ensures
        holds_value(*w, f),
{
    match w {
        WireValue::Integer(v) => TupleField::Integer(*v),
        WireValue::Float(v) => TupleField::Float(*v),
        WireValue::String(v) => TupleField::String(owned(v.as_str())),
        WireValue::Boolean(v) => TupleField::Boolean(*v),
        WireValue::Binary(v) => TupleField::Binary(copy_bytes(v)),
        WireValue::Null => TupleField::Null,
        WireValue::Wildcard => TupleField::Null,
    }
}

/// The stored field for a request field: a wildcard or a missing value is
/// refused.
pub fn convert_proto_field_to_internal(field: &WireField) -> (r: Result<TupleField, TupleStatus>)
    ensures
        storable(*field) ==> (r matches Ok(f) && holds_value(field.value->0, f)),
        !storable(*field) ==> (r matches Err(TupleStatus::InvalidArgument(m)) && m@ == unstorable_reason(*field)),
{
    match &field.value {
        Some(WireValue::Wildcard) => Err(TupleStatus::InvalidArgument(
            owned("Wildcard cannot be used as a tuple value (only in patterns)"),
        )),
        Some(w) => Ok(stored_value(w)),
        None => Err(TupleStatus::InvalidArgument(owned("TupleField must have a value"))),
    }
}

/// The lease stored for a lease request: none without a time to live; the
/// owner only when one is named.
pub fn convert_lease(lease: &Option<WireLease>) -> (t: Option<LeaseTerms>)
    ensures
        lease_requested(*lease, t),
{
    match lease {
        Some(l) => match l.ttl {
            Some((seconds, nanos)) => {
                let owner = if l.owner.unicode_len() > 0 {
                    Some(owned(l.owner.as_str()))
                } else {
                    None
                };
                Some(LeaseTerms { ttl_seconds: seconds, ttl_nanos: nanos, owner, renewable: l.renewable })
            },
            None => None,
        },
        None => None,
    }
}

/// The tuple to write for a request tuple: it needs at least one field, and
/// every field must be storable; the first field that is not decides the
/// error.
pub fn convert_proto_tuple_to_internal(tuple: &WireTuple) -> (r: Result<TupleRecord, TupleStatus>)
    ensures
        tuple.fields@.len() == 0 ==> (r matches Err(TupleStatus::InvalidArgument(m))
            && m@ == "Tuple must have at least one field"@),
        tuple.fields@.len() > 0 && (forall|i: int| 0 <= i < tuple.fields@.len() ==> storable(#[trigger] tuple.fields@[i]))
            ==> (r matches Ok(t) && t.fields@.len() == tuple.fields@.len()
                && (forall|i: int| 0 <= i < t.fields@.len() ==> holds_value(tuple.fields@[i].value->0, #[trigger] t.fields@[i]))
                && lease_requested(tuple.lease, t.lease)),
        tuple.fields@.len() > 0 && (exists|i: int| 0 <= i < tuple.fields@.len() && !storable(#[trigger] tuple.fields@[i]))
            ==> (r matches Err(TupleStatus::InvalidArgument(m))
                && exists|k: int| first_unstorable(tuple.fields@, k) && m@ == unstorable_reason(tuple.fields@[k])),
{
    if tuple.fields.len() == 0 {
        return Err(TupleStatus::InvalidArgument(owned("Tuple must have at least one field")));
    }
    let mut fields: Vec<TupleField> = Vec::new();
    let mut i: usize = 0;
    while i < tuple.fields.len()
        invariant
            i <= tuple.fields@.len(),
            fields@.len() == i,
            forall|j: int| 0 <= j < i ==> storable(#[trigger] tuple.fields@[j]),
            forall|j: int| 0 <= j < i ==> holds_value(tuple.fields@[j].value->0, #[trigger] fields@[j]),
        decreases tuple.fields@.len() - i,
    {
        match convert_proto_field_to_internal(&tuple.fields[i]) {
            Ok(f) => {
                fields.push(f);
            },
            Err(e) => {
                assert(first_unstorable(tuple.fields@, i as int));
                return Err(e);
            },
        }
        i = i + 1;
    }
    Ok(TupleRecord { fields, lease: convert_lease(&tuple.lease) })
}

/// The pattern position for a template field, when it has a value or is a
/// wildcard.
fn pattern_field(w: &WireValue) -> (p: PatternField)
    ensures
        pattern_for(*w, p),
{
    match w {
        WireValue::Wildcard => PatternField::Wildcard,
        _ => PatternField::Exact(stored_value(w)),
    }
}

/// The match pattern for a read or take template: it needs at least one
/// field, and every field needs a value or a wildcard; the first that has
/// neither is refused.
pub fn convert_proto_template_to_pattern(template: &WireTuple) -> (r: Result<Vec<PatternField>, TupleStatus>)
    ensures
        template.fields@.len() == 0 ==> (r matches Err(TupleStatus::InvalidArgument(m))
            && m@ == "Template must have at least one field"@),
        template.fields@.len() > 0 && (forall|i: int| 0 <= i < template.fields@.len() ==> matchable(#[trigger] template.fields@[i]))
            ==> (r matches Ok(p) && p@.len() == template.fields@.len()
                && forall|i: int| 0 <= i < p@.len() ==> pattern_for(template.fields@[i].value->0, #[trigger] p@[i])),
        template.fields@.len() > 0 && (exists|i: int| 0 <= i < template.fields@.len() && !matchable(#[trigger] template.fields@[i]))
            ==> (r matches Err(TupleStatus::InvalidArgument(m))
                && m@ == "Pattern field must have a value or wildcard"@),
{
    if template.fields.len() == 0 {
        return Err(TupleStatus::InvalidArgument(owned("Template must have at least one field")));
    }
    let mut pattern: Vec<PatternField> = Vec::new();
    let mut i: usize = 0;
    while i < template.fields.len()
        invariant
            i <= template.fields@.len(),
            pattern@.len() == i,
            forall|j: int| 0 <= j < i ==> matchable(#[trigger] template.fields@[j]),
            forall|j: int| 0 <= j < i ==> pattern_for(template.fields@[j].value->0, #[trigger] pattern@[j]),
        decreases template.fields@.len() - i,
    {
        match &template.fields[i].value {
            Some(w) => {
                pattern.push(pattern_field(w));
            },
            None => {
                return Err(TupleStatus::InvalidArgument(owned("Pattern field must have a value or wildcard")));
            },
        }
        i = i + 1;
    }
    Ok(pattern)
}

/// The wire value of a stored field.
pub fn convert_internal_field_to_proto(field: &TupleField) -> (w: WireValue)
    ensures
        holds_value(w, *field),
{
    match field {
        TupleField::Integer(v) => WireValue::Integer(*v),
        TupleField::Float(v) => WireValue::Float(*v),
        TupleField::String(v) => WireValue::String(owned(v.as_str())),
        TupleField::Boolean(v) => WireValue::Boolean(*v),
        TupleField::Binary(v) => WireValue::Binary(copy_bytes(v)),
        TupleField::Null => WireValue::Null,
    }
}

/// The status a provider failure is answered with.
pub fn tuplespace_error_to_status(error: &TupleSpaceFailure) -> (s: TupleStatus)
    ensures
        failure_status(*error, s),
{
    match error {
        TupleSpaceFailure::NotFound => TupleStatus::NotFound(owned("Tuple not found")),
        TupleSpaceFailure::PatternError(d) => TupleStatus::InvalidArgument(concat("Pattern error: ", d.as_str())),
        TupleSpaceFailure::LeaseError(d) => TupleStatus::FailedPrecondition(concat("Lease error: ", d.as_str())),
        TupleSpaceFailure::InvalidConfiguration(d) => TupleStatus::InvalidArgument(concat("Invalid configuration: ", d.as_str())),
        TupleSpaceFailure::NotImplemented(d) => TupleStatus::Unimplemented(owned(d.as_str())),
        TupleSpaceFailure::NotSupported(d) => TupleStatus::Unimplemented(owned(d.as_str())),
        TupleSpaceFailure::Other(d) => TupleStatus::Internal(concat("TupleSpace error: ", d.as_str())),
    }
}

} // verus!
