//! The Request journal's payload.
//!
//! The Request lane stores a protobuf record rather than the node's JSON wire form: it is written
//! on the admission hot path and read by the L2 ledger process in another language.
//!
//! | field | type |
//! |---|---|
//! | 1 `head_peer_number` | uint32 |
//! | 2 `request_number` | uint64 |
//! | 3 `deposit` | message: 1 `l1_payload` bytes, 2 `l2_payload` bytes |
//! | 4 `transaction` | message: 1 `l2_payload` bytes |
//!
//! Field 5 is deliberately absent: it carried a content hash of the body and is expected back. A
//! build that does not know a field skips it.

use crate::bytes::{copy_bytes, push_bytes};
use crate::store::error::StoreError;
use crate::store::wire::{
    encode_varint, fault_of, field_key, field_skip, integer_at, law_varint_round_trips,
    lemma_varint_len, length_at, nested_field_skip, read_integer, read_key, read_length,
    read_payload, skip_nested_field, skip_record_field, varint_bytes, Fault, FaultView,
};
use vstd::prelude::*;

verus! {

/// One entry in a head peer's Request journal.
#[derive(Clone, PartialEq, Debug)]
pub struct RequestRecord {
    /// The assigning head peer's number.
    pub head_peer_number: u32,
    /// That peer's per-author sequential request number.
    pub request_number: u64,
    /// Exactly one body is present; which one is the request's kind.
    pub body: Option<RequestBody>,
}

#[derive(Clone, PartialEq, Debug)]
pub enum RequestBody {
    Deposit(DepositBody),
    Transaction(TransactionBody),
}

/// A deposit: the CBOR-encoded L1 deposit transaction, and the opaque L2 payload it pins.
#[derive(Clone, PartialEq, Debug)]
pub struct DepositBody {
    pub l1_payload: Vec<u8>,
    pub l2_payload: Vec<u8>,
}

/// An L2 transaction: one opaque payload, passed to the L2 ledger unmodified.
#[derive(Clone, PartialEq, Debug)]
pub struct TransactionBody {
    pub l2_payload: Vec<u8>,
}

/// What a record says.
pub struct RecordView {
    pub head_peer_number: u32,
    pub request_number: u64,
    pub body: Option<BodyView>,
}

/// What a record's body says.
pub enum BodyView {
    Deposit { l1: Seq<u8>, l2: Seq<u8> },
    Transaction { l2: Seq<u8> },
}

impl View for DepositBody {
    type V = (Seq<u8>, Seq<u8>);

    open spec fn view(&self) -> (Seq<u8>, Seq<u8>) {
        (self.l1_payload@, self.l2_payload@)
    }
}

impl View for TransactionBody {
    type V = Seq<u8>;

    open spec fn view(&self) -> Seq<u8> {
        self.l2_payload@
    }
}

impl View for RequestBody {
    type V = BodyView;

    open spec fn view(&self) -> BodyView {
        match self {
            RequestBody::Deposit(d) => BodyView::Deposit { l1: d.l1_payload@, l2: d.l2_payload@ },
            RequestBody::Transaction(t) => BodyView::Transaction { l2: t.l2_payload@ },
        }
    }
}

impl View for RequestRecord {
    type V = RecordView;

    open spec fn view(&self) -> RecordView {
        RecordView {
            head_peer_number: self.head_peer_number,
            request_number: self.request_number,
            body: match self.body {
                Some(b) => Some(b@),
                None => None,
            },
        }
    }
}

/// A record none of whose fields has been read yet.
pub open spec fn blank_record() -> RecordView {
    RecordView { head_peer_number: 0, request_number: 0, body: None }
}

/// A deposit body once the fields in `s` have been read into it, up to where `limit` bytes are left,
/// and those bytes; or what is wrong with them. A field may not reach past the limit.
pub open spec fn deposit_with(body: (Seq<u8>, Seq<u8>), s: Seq<u8>, limit: nat) -> Result<
    ((Seq<u8>, Seq<u8>), Seq<u8>),
    FaultView,
>
    decreases s.len(),
{
    proof {
        lemma_varint_len(s, 0);
    }
    if s.len() == limit {
        Ok((body, s))
    } else if s.len() < limit {
        Err(fault_of("delimited length exceeded"@))
    } else {
        match field_key(s) {
            Err(why) => Err(fault_of(why)),
            Ok((tag, wire, n)) => {
                let rest = s.skip(n as int);
                proof {
                    lemma_varint_len(rest, 0);
                }
                if tag == 1 {
                    match length_at(wire, rest) {
                        Ok((len, m)) => deposit_with(
                            (rest.subrange(m as int, (m + len) as int), body.1),
                            rest.skip((m + len) as int),
                            limit,
                        ),
                        Err(why) => Err(fault_of(why).within("DepositBody.l1_payload"@)),
                    }
                } else if tag == 2 {
                    match length_at(wire, rest) {
                        Ok((len, m)) => deposit_with(
                            (body.0, rest.subrange(m as int, (m + len) as int)),
                            rest.skip((m + len) as int),
                            limit,
                        ),
                        Err(why) => Err(fault_of(why).within("DepositBody.l2_payload"@)),
                    }
                } else {
                    match nested_field_skip(wire, tag, rest) {
                        Ok(m) => deposit_with(body, rest.skip(m as int), limit),
                        Err(why) => Err(fault_of(why)),
                    }
                }
            },
        }
    }
}

/// A transaction body once the fields in `s` have been read into it, up to where `limit` bytes are
/// left, and those bytes; or what is wrong with them. A field may not reach past the limit.
pub open spec fn transaction_with(body: Seq<u8>, s: Seq<u8>, limit: nat) -> Result<
    (Seq<u8>, Seq<u8>),
    FaultView,
>
    decreases s.len(),
{
    proof {
        lemma_varint_len(s, 0);
    }
    if s.len() == limit {
        Ok((body, s))
    } else if s.len() < limit {
        Err(fault_of("delimited length exceeded"@))
    } else {
        match field_key(s) {
            Err(why) => Err(fault_of(why)),
            Ok((tag, wire, n)) => {
                let rest = s.skip(n as int);
                proof {
                    lemma_varint_len(rest, 0);
                }
                if tag == 1 {
                    match length_at(wire, rest) {
                        Ok((len, m)) => transaction_with(
                            rest.subrange(m as int, (m + len) as int),
                            rest.skip((m + len) as int),
                            limit,
                        ),
                        Err(why) => Err(fault_of(why).within("TransactionBody.l2_payload"@)),
                    }
                } else {
                    match nested_field_skip(wire, tag, rest) {
                        Ok(m) => transaction_with(body, rest.skip(m as int), limit),
                        Err(why) => Err(fault_of(why)),
                    }
                }
            },
        }
    }
}

/// The body of a record once a field of number `tag` at the front of `s` has been read into it, and
/// what is left of `s`; or what is wrong with the field. A field of the kind that is there already
/// is merged into it, one of the other kind replaces it.
pub open spec fn body_with(body: Option<BodyView>, tag: u32, wire: u8, s: Seq<u8>) -> Result<
    (BodyView, Seq<u8>),
    FaultView,
> {
    match length_at(wire, s) {
        Err(why) => Err(fault_of(why)),
        Ok((len, n)) => {
            let rest = s.skip(n as int);
            let limit = (rest.len() - len) as nat;
            if tag == 3 {
                let start = match body {
                    Some(BodyView::Deposit { l1, l2 }) => (l1, l2),
                    _ => (Seq::empty(), Seq::empty()),
                };
                match deposit_with(start, rest, limit) {
                    Ok((d, left)) => Ok((BodyView::Deposit { l1: d.0, l2: d.1 }, left)),
                    Err(fault) => Err(fault),
                }
            } else {
                let start = match body {
                    Some(BodyView::Transaction { l2 }) => l2,
                    _ => Seq::empty(),
                };
                match transaction_with(start, rest, limit) {
                    Ok((l2, left)) => Ok((BodyView::Transaction { l2 }, left)),
                    Err(fault) => Err(fault),
                }
            }
        },
    }
}

/// A record once the fields in `s` have been read into it, or what is wrong with them.
pub open spec fn record_with(record: RecordView, s: Seq<u8>) -> Result<RecordView, FaultView>
    decreases s.len(),
{
    proof {
        lemma_varint_len(s, 0);
    }
    if s.len() == 0 {
        Ok(record)
    } else {
        match field_key(s) {
            Err(why) => Err(fault_of(why)),
            Ok((tag, wire, n)) => {
                let rest = s.skip(n as int);
                proof {
                    lemma_varint_len(rest, 0);
                    lemma_body_shortens(record.body, tag, wire, rest);
                }
                if tag == 1 {
                    match integer_at(wire, rest) {
                        Ok((value, m)) => record_with(
                            RecordView {
                                head_peer_number: (value % 0x1_0000_0000) as u32,
                                ..record
                            },
                            rest.skip(m as int),
                        ),
                        Err(why) => Err(fault_of(why).within("RequestRecord.head_peer_number"@)),
                    }
                } else if tag == 2 {
                    match integer_at(wire, rest) {
                        Ok((value, m)) => record_with(
                            RecordView { request_number: value as u64, ..record },
                            rest.skip(m as int),
                        ),
                        Err(why) => Err(fault_of(why).within("RequestRecord.request_number"@)),
                    }
                } else if tag == 3 || tag == 4 {
                    match body_with(record.body, tag, wire, rest) {
                        Ok((body, left)) => record_with(
                            RecordView { body: Some(body), ..record },
                            left,
                        ),
                        Err(fault) => Err(fault.within("RequestRecord.body"@)),
                    }
                } else {
                    match field_skip(wire, tag, rest) {
                        Ok(m) => record_with(record, rest.skip(m as int)),
                        Err(why) => Err(fault_of(why)),
                    }
                }
            },
        }
    }
}

proof fn lemma_deposit_shortens(body: (Seq<u8>, Seq<u8>), s: Seq<u8>, limit: nat)
    ensures
        deposit_with(body, s, limit) matches Ok((_, left)) ==> left.len() == limit && limit
            <= s.len(),
    decreases s.len(),
{
    lemma_varint_len(s, 0);
    if s.len() > limit {
        if let Ok((tag, wire, n)) = field_key(s) {
            let rest = s.skip(n as int);
            lemma_varint_len(rest, 0);
            if tag == 1 || tag == 2 {
                if let Ok((len, m)) = length_at(wire, rest) {
                    let payload = rest.subrange(m as int, (m + len) as int);
                    let next = rest.skip((m + len) as int);
                    if tag == 1 {
                        lemma_deposit_shortens((payload, body.1), next, limit);
                    } else {
                        lemma_deposit_shortens((body.0, payload), next, limit);
                    }
                }
            } else if let Ok(m) = nested_field_skip(wire, tag, rest) {
                lemma_deposit_shortens(body, rest.skip(m as int), limit);
            }
        }
    }
}

proof fn lemma_transaction_shortens(body: Seq<u8>, s: Seq<u8>, limit: nat)
    ensures
        transaction_with(body, s, limit) matches Ok((_, left)) ==> left.len() == limit && limit
            <= s.len(),
    decreases s.len(),
{
    lemma_varint_len(s, 0);
    if s.len() > limit {
        if let Ok((tag, wire, n)) = field_key(s) {
            let rest = s.skip(n as int);
            lemma_varint_len(rest, 0);
            if tag == 1 {
                if let Ok((len, m)) = length_at(wire, rest) {
                    let payload = rest.subrange(m as int, (m + len) as int);
                    lemma_transaction_shortens(payload, rest.skip((m + len) as int), limit);
                }
            } else if let Ok(m) = nested_field_skip(wire, tag, rest) {
                lemma_transaction_shortens(body, rest.skip(m as int), limit);
            }
        }
    }
}

/// What is left behind a body is no longer than what the body stood in front of.
pub proof fn lemma_body_shortens(body: Option<BodyView>, tag: u32, wire: u8, s: Seq<u8>)
    ensures
        body_with(body, tag, wire, s) matches Ok((_, left)) ==> left.len() <= s.len(),
{
    lemma_varint_len(s, 0);
    if let Ok((len, n)) = length_at(wire, s) {
        let rest = s.skip(n as int);
        let limit = (rest.len() - len) as nat;
        let deposit = match body {
            Some(BodyView::Deposit { l1, l2 }) => (l1, l2),
            _ => (Seq::empty(), Seq::empty()),
        };
        let transaction = match body {
            Some(BodyView::Transaction { l2 }) => l2,
            _ => Seq::empty(),
        };
        lemma_deposit_shortens(deposit, rest, limit);
        lemma_transaction_shortens(transaction, rest, limit);
    }
}

/// A field's key and length-delimited payload.
pub open spec fn delimited_field(tag: nat, payload: Seq<u8>) -> Seq<u8> {
    varint_bytes(tag * 8 + 2) + varint_bytes(payload.len()) + payload
}

/// A bytes field, left out where it is empty.
pub open spec fn bytes_field(tag: nat, payload: Seq<u8>) -> Seq<u8> {
    if payload.len() == 0 {
        Seq::empty()
    } else {
        delimited_field(tag, payload)
    }
}

/// An integer field, left out where it is zero.
pub open spec fn integer_field(tag: nat, v: nat) -> Seq<u8> {
    if v == 0 {
        Seq::empty()
    } else {
        varint_bytes(tag * 8) + varint_bytes(v)
    }
}

impl BodyView {
    /// The body's field.
    pub open spec fn encoded(self) -> Seq<u8> {
        match self {
            BodyView::Deposit { l1, l2 } => delimited_field(
                3,
                bytes_field(1, l1) + bytes_field(2, l2),
            ),
            BodyView::Transaction { l2 } => delimited_field(4, bytes_field(1, l2)),
        }
    }
}

impl RecordView {
    /// The record's bytes: its fields in order, each left out where it has its default.
    pub open spec fn encoded(self) -> Seq<u8> {
        integer_field(1, self.head_peer_number as nat) + integer_field(
            2,
            self.request_number as nat,
        ) + match self.body {
            Some(body) => body.encoded(),
            None => Seq::empty(),
        }
    }
}

impl RequestRecord {
    /// Decode a record from a journal payload: the stored value with its arrival stamp already
    /// stripped.
    pub fn decode_payload(payload: &[u8]) -> (r: Result<RequestRecord, StoreError>)
        ensures
            match r {
                Ok(record) => record_with(blank_record(), payload@) == Ok::<_, FaultView>(record@),
                Err(e) => {
                    &&& record_with(blank_record(), payload@) matches Err(fault)
                    &&& e matches StoreError::UndecodableRecord { account }
                    &&& account@ == fault.shown()
                },
            },
    {
        match read_record(payload) {
            Ok(record) => Ok(record),
            Err(fault) => Err(StoreError::UndecodableRecord { account: fault.message() }),
        }
    }

    /// `"deposit"` or `"transaction"`, or `None` for a record carrying neither.
    ///
    /// A record with no body is not a decode failure, every field being optional, but it is a
    /// record no node writes, so a reader reports it rather than assuming a kind.
    pub fn kind(&self) -> (r: Option<&'static str>)
        ensures
            match self.body {
                Some(RequestBody::Deposit(_)) => r matches Some(k) && k@ == "deposit"@,
                Some(RequestBody::Transaction(_)) => r matches Some(k) && k@ == "transaction"@,
                None => r is None,
            },
    {
        match &self.body {
            Some(RequestBody::Deposit(_)) => Some("deposit"),
            Some(RequestBody::Transaction(_)) => Some("transaction"),
            None => None,
        }
    }

    /// The record as a node writes it.
    pub fn encode_to_vec(&self) -> (r: Vec<u8>)
        ensures
            r@ == self@.encoded(),
    {
        let mut out: Vec<u8> = Vec::new();
        push_integer(&mut out, 1, self.head_peer_number as u64);
        push_integer(&mut out, 2, self.request_number);
        match &self.body {
            Some(RequestBody::Deposit(d)) => {
                let mut inner: Vec<u8> = Vec::new();
                push_payload(&mut inner, 1, d.l1_payload.as_slice());
                push_payload(&mut inner, 2, d.l2_payload.as_slice());
                proof {
                    assert(inner@ =~= bytes_field(1, d.l1_payload@) + bytes_field(2, d.l2_payload@));
                }
                push_delimited(&mut out, 3, inner.as_slice());
            },
            Some(RequestBody::Transaction(t)) => {
                let mut inner: Vec<u8> = Vec::new();
                push_payload(&mut inner, 1, t.l2_payload.as_slice());
                proof {
                    assert(inner@ =~= bytes_field(1, t.l2_payload@));
                }
                push_delimited(&mut out, 4, inner.as_slice());
            },
            None => {},
        }
        assert(out@ =~= self@.encoded());
        out
    }
}

fn read_record(payload: &[u8]) -> (r: Result<RequestRecord, Fault>)
    ensures
        match r {
            Ok(record) => record_with(blank_record(), payload@) == Ok::<_, FaultView>(record@),
            Err(fault) => record_with(blank_record(), payload@) == Err::<RecordView, _>(fault@),
        },
{
    let mut record = RequestRecord { head_peer_number: 0, request_number: 0, body: None };
    let mut buf: &[u8] = payload;
    while buf.len() > 0
        invariant
            record_with(blank_record(), payload@) == record_with(record@, buf@),
        decreases buf@.len(),
    {
        proof {
            lemma_varint_len(buf@, 0);
        }
        let (tag, wire) = match read_key(&mut buf) {
            Ok(key) => key,
            Err(fault) => {
                return Err(fault);
            },
        };
        proof {
            lemma_varint_len(buf@, 0);
            lemma_body_shortens(record@.body, tag, wire, buf@);
        }
        if tag == 1 {
            match read_integer(wire, &mut buf) {
                Ok(value) => {
                    record.head_peer_number = (value % 0x1_0000_0000) as u32;
                },
                Err(fault) => {
                    return Err(fault.within("RequestRecord.head_peer_number"));
                },
            }
        } else if tag == 2 {
            match read_integer(wire, &mut buf) {
                Ok(value) => {
                    record.request_number = value;
                },
                Err(fault) => {
                    return Err(fault.within("RequestRecord.request_number"));
                },
            }
        } else if tag == 3 || tag == 4 {
            match read_body(record.body, tag, wire, &mut buf) {
                Ok(body) => {
                    record.body = Some(body);
                },
                Err(fault) => {
                    return Err(fault.within("RequestRecord.body"));
                },
            }
        } else {
            match skip_record_field(wire, tag, &mut buf) {
                Ok(_) => {},
                Err(fault) => {
                    return Err(fault);
                },
            }
        }
    }
    Ok(record)
}

fn read_body(body: Option<RequestBody>, tag: u32, wire: u8, buf: &mut &[u8]) -> (r: Result<
    RequestBody,
    Fault,
>)
    requires
        tag == 3 || tag == 4,
    ensures
        ({
            let before = match body {
                Some(b) => Some(b@),
                None => None,
            };
            match r {
                Ok(after) => body_with(before, tag, wire, (*old(buf))@) == Ok::<_, FaultView>(
                    (after@, (*final(buf))@),
                ),
                Err(fault) => body_with(before, tag, wire, (*old(buf))@) == Err::<
                    (BodyView, Seq<u8>),
                    _,
                >(fault@),
            }
        }),
{
    let len = match read_length(wire, buf) {
        Ok(len) => len,
        Err(fault) => {
            return Err(fault);
        },
    };
    let limit = (*buf).len() - len;
    if tag == 3 {
        let start = match body {
            Some(RequestBody::Deposit(d)) => d,
            _ => DepositBody { l1_payload: Vec::new(), l2_payload: Vec::new() },
        };
        assert(!(body matches Some(RequestBody::Deposit(_))) ==> start@ =~= (
            Seq::<u8>::empty(),
            Seq::<u8>::empty(),
        ));
        match read_deposit(start, buf, limit) {
            Ok(d) => Ok(RequestBody::Deposit(d)),
            Err(fault) => Err(fault),
        }
    } else {
        let start = match body {
            Some(RequestBody::Transaction(t)) => t,
            _ => TransactionBody { l2_payload: Vec::new() },
        };
        match read_transaction(start, buf, limit) {
            Ok(t) => Ok(RequestBody::Transaction(t)),
            Err(fault) => Err(fault),
        }
    }
}

fn read_deposit(start: DepositBody, buf: &mut &[u8], limit: usize) -> (r: Result<
    DepositBody,
    Fault,
>)
    ensures
        match r {
            Ok(d) => deposit_with(start@, (*old(buf))@, limit as nat) == Ok::<_, FaultView>(
                (d@, (*final(buf))@),
            ),
            Err(fault) => deposit_with(start@, (*old(buf))@, limit as nat) == Err::<
                ((Seq<u8>, Seq<u8>), Seq<u8>),
                _,
            >(fault@),
        },
{
    let mut body = start;
    while (*buf).len() > limit
        invariant
            deposit_with(start@, (*old(buf))@, limit as nat) == deposit_with(
                body@,
                (*buf)@,
                limit as nat,
            ),
        decreases (*buf)@.len(),
    {
        proof {
            lemma_varint_len((*buf)@, 0);
        }
        let (tag, wire) = match read_key(buf) {
            Ok(key) => key,
            Err(fault) => {
                return Err(fault);
            },
        };
        proof {
            lemma_varint_len((*buf)@, 0);
        }
        if tag == 1 {
            match read_payload(wire, buf) {
                Ok(payload) => {
                    body.l1_payload = copy_bytes(payload);
                },
                Err(fault) => {
                    return Err(fault.within("DepositBody.l1_payload"));
                },
            }
        } else if tag == 2 {
            match read_payload(wire, buf) {
                Ok(payload) => {
                    body.l2_payload = copy_bytes(payload);
                },
                Err(fault) => {
                    return Err(fault.within("DepositBody.l2_payload"));
                },
            }
        } else {
            match skip_nested_field(wire, tag, buf) {
                Ok(_) => {},
                Err(fault) => {
                    return Err(fault);
                },
            }
        }
    }
    if (*buf).len() != limit {
        return Err(Fault::new("delimited length exceeded"));
    }
    Ok(body)
}

fn read_transaction(start: TransactionBody, buf: &mut &[u8], limit: usize) -> (r: Result<
    TransactionBody,
    Fault,
>)
    ensures
        match r {
            Ok(t) => transaction_with(start@, (*old(buf))@, limit as nat) == Ok::<_, FaultView>(
                (t@, (*final(buf))@),
            ),
            Err(fault) => transaction_with(start@, (*old(buf))@, limit as nat) == Err::<
                (Seq<u8>, Seq<u8>),
                _,
            >(fault@),
        },
{
    let mut body = start;
    while (*buf).len() > limit
        invariant
            transaction_with(start@, (*old(buf))@, limit as nat) == transaction_with(
                body@,
                (*buf)@,
                limit as nat,
            ),
        decreases (*buf)@.len(),
    {
        proof {
            lemma_varint_len((*buf)@, 0);
        }
        let (tag, wire) = match read_key(buf) {
            Ok(key) => key,
            Err(fault) => {
                return Err(fault);
            },
        };
        proof {
            lemma_varint_len((*buf)@, 0);
        }
        if tag == 1 {
            match read_payload(wire, buf) {
                Ok(payload) => {
                    body.l2_payload = copy_bytes(payload);
                },
                Err(fault) => {
                    return Err(fault.within("TransactionBody.l2_payload"));
                },
            }
        } else {
            match skip_nested_field(wire, tag, buf) {
                Ok(_) => {},
                Err(fault) => {
                    return Err(fault);
                },
            }
        }
    }
    if (*buf).len() != limit {
        return Err(Fault::new("delimited length exceeded"));
    }
    Ok(body)
}

fn push_integer(out: &mut Vec<u8>, tag: u64, v: u64)
    requires
        tag < 16,
    ensures
        final(out)@ == old(out)@ + integer_field(tag as nat, v as nat),
{
    if v != 0 {
        encode_varint(tag * 8, out);
        encode_varint(v, out);
    }
    assert(out@ =~= old(out)@ + integer_field(tag as nat, v as nat));
}

fn push_delimited(out: &mut Vec<u8>, tag: u64, payload: &[u8])
    requires
        tag < 16,
    ensures
        final(out)@ == old(out)@ + delimited_field(tag as nat, payload@),
{
    encode_varint(tag * 8 + 2, out);
    encode_varint(payload.len() as u64, out);
    push_bytes(out, payload);
    assert(out@ =~= old(out)@ + delimited_field(tag as nat, payload@));
}

fn push_payload(out: &mut Vec<u8>, tag: u64, payload: &[u8])
    requires
        tag < 16,
    ensures
        final(out)@ == old(out)@ + bytes_field(tag as nat, payload@),
{
    if payload.len() > 0 {
        push_delimited(out, tag, payload);
    }
    assert(out@ =~= old(out)@ + bytes_field(tag as nat, payload@));
}

/// A field key is read back as it was written, whatever follows it.
proof fn lemma_key_read(tag: u32, wire: u8, rest: Seq<u8>)
    requires
        0 < tag < 0x2000_0000,
        wire <= 5,
    ensures
        ({
            let key = varint_bytes((tag * 8 + wire) as nat);
            &&& key.len() > 0
            &&& field_key(key + rest) == Ok::<_, Seq<char>>((tag, wire, key.len()))
            &&& (key + rest).skip(key.len() as int) == rest
        }),
{
    let key = (tag * 8 + wire) as u64;
    law_varint_round_trips(key, rest);
    lemma_varint_len(varint_bytes(key as nat) + rest, 0);
    assert((varint_bytes(key as nat) + rest).skip(varint_bytes(key as nat).len() as int) =~= rest);
}

/// A length-delimited payload is read back as it was written, whatever follows it.
proof fn lemma_payload_read(payload: Seq<u8>, rest: Seq<u8>)
    requires
        payload.len() <= u64::MAX,
    ensures
        ({
            let s = varint_bytes(payload.len()) + payload + rest;
            let n = varint_bytes(payload.len()).len();
            &&& length_at(2, s) == Ok::<_, Seq<char>>((payload.len(), n))
            &&& s.skip(n as int) == payload + rest
            &&& s.subrange(n as int, (n + payload.len()) as int) == payload
            &&& s.skip((n + payload.len()) as int) == rest
        }),
{
    let len = varint_bytes(payload.len());
    let s = len + payload + rest;
    law_varint_round_trips(payload.len() as u64, payload + rest);
    assert(s =~= len + (payload + rest));
    assert(s.skip(len.len() as int) =~= payload + rest);
    assert(s.subrange(len.len() as int, (len.len() + payload.len()) as int) =~= payload);
    assert(s.skip((len.len() + payload.len()) as int) =~= rest);
}

/// The key, payload and remainder of a length-delimited field that something follows.
proof fn lemma_delimited_field_read(tag: u32, payload: Seq<u8>, rest: Seq<u8>)
    requires
        0 < tag < 0x2000_0000,
        payload.len() <= u64::MAX,
    ensures
        ({
            let s = delimited_field(tag as nat, payload) + rest;
            let n = varint_bytes((tag * 8 + 2) as nat).len();
            let m = varint_bytes(payload.len()).len();
            let after = s.skip(n as int);
            &&& s.len() > rest.len()
            &&& field_key(s) == Ok::<_, Seq<char>>((tag, 2u8, n))
            &&& length_at(2, after) == Ok::<_, Seq<char>>((payload.len(), m))
            &&& after.skip(m as int) == payload + rest
            &&& after.subrange(m as int, (m + payload.len()) as int) == payload
            &&& after.skip((m + payload.len()) as int) == rest
        }),
{
    let key = varint_bytes((tag * 8 + 2) as nat);
    let after = varint_bytes(payload.len()) + payload + rest;
    lemma_key_read(tag, 2, after);
    lemma_payload_read(payload, rest);
    assert(delimited_field(tag as nat, payload) + rest =~= key + after);
}

proof fn lemma_transaction_read(l2: Seq<u8>, rest: Seq<u8>)
    requires
        l2.len() <= u64::MAX,
    ensures
        transaction_with(Seq::empty(), bytes_field(1, l2) + rest, rest.len()) == Ok::<_, FaultView>(
            (l2, rest),
        ),
{
    reveal_with_fuel(transaction_with, 2);
    if l2.len() > 0 {
        lemma_delimited_field_read(1, l2, rest);
    } else {
        assert(l2 =~= Seq::<u8>::empty());
        assert(bytes_field(1, l2) + rest =~= rest);
    }
}

proof fn lemma_deposit_read(l1: Seq<u8>, l2: Seq<u8>, rest: Seq<u8>)
    requires
        l1.len() <= u64::MAX,
        l2.len() <= u64::MAX,
    ensures
        deposit_with(
            (Seq::empty(), Seq::empty()),
            bytes_field(1, l1) + bytes_field(2, l2) + rest,
            rest.len(),
        ) == Ok::<_, FaultView>(((l1, l2), rest)),
{
    let none = Seq::<u8>::empty();
    let second = bytes_field(2, l2) + rest;
    assert(deposit_with((l1, none), second, rest.len()) == Ok::<_, FaultView>(((l1, l2), rest))) by {
        reveal_with_fuel(deposit_with, 2);
        if l2.len() > 0 {
            lemma_delimited_field_read(2, l2, rest);
        } else {
            assert(l2 =~= none);
            assert(second =~= rest);
        }
    }
    assert(bytes_field(1, l1) + bytes_field(2, l2) + rest =~= bytes_field(1, l1) + second);
    if l1.len() > 0 {
        lemma_delimited_field_read(1, l1, second);
    } else {
        assert(l1 =~= none);
        assert(bytes_field(1, l1) + second =~= second);
    }
}

proof fn lemma_integer_read(record: RecordView, tag: u32, v: u64, rest: Seq<u8>)
    requires
        tag == 1 || tag == 2,
        tag == 1 ==> v <= u32::MAX && record.head_peer_number == 0,
        tag == 2 ==> record.request_number == 0,
    ensures
        record_with(record, integer_field(tag as nat, v as nat) + rest) == record_with(
            if tag == 1 {
                RecordView { head_peer_number: v as u32, ..record }
            } else {
                RecordView { request_number: v, ..record }
            },
            rest,
        ),
{
    let s = integer_field(tag as nat, v as nat) + rest;
    if v == 0 {
        assert(s =~= rest);
    } else {
        let value = varint_bytes(v as nat);
        lemma_key_read(tag, 0, value + rest);
        assert(s =~= varint_bytes((tag * 8) as nat) + (value + rest));
        law_varint_round_trips(v, rest);
        assert((value + rest).skip(value.len() as int) =~= rest);
        let n = varint_bytes((tag * 8) as nat).len();
        let after = s.skip(n as int);
        assert(field_key(s) == Ok::<_, Seq<char>>((tag, 0u8, n)));
        assert(after == value + rest);
        assert(integer_at(0, after) == Ok::<_, Seq<char>>((v as nat, value.len())));
        if tag == 1 {
            assert(v as nat % 0x1_0000_0000 == v);
        }
    }
}

impl RecordView {
    /// Whether every length in the record fits the format's 64 bits.
    pub open spec fn encodable(self) -> bool {
        match self.body {
            Some(BodyView::Deposit { l1, l2 }) => {
                &&& l1.len() <= u64::MAX
                &&& l2.len() <= u64::MAX
                &&& (bytes_field(1, l1) + bytes_field(2, l2)).len() <= u64::MAX
            },
            Some(BodyView::Transaction { l2 }) => {
                &&& l2.len() <= u64::MAX
                &&& bytes_field(1, l2).len() <= u64::MAX
            },
            None => true,
        }
    }
}

/// Reading a written record gives that record back, and goes on with what follows it.
pub proof fn law_record_is_read_back(record: RecordView, rest: Seq<u8>)
    requires
        record.encodable(),
    ensures
        record_with(blank_record(), record.encoded() + rest) == record_with(record, rest),
{
    let none = Seq::<u8>::empty();
    let body = match record.body {
        Some(body) => body.encoded(),
        None => none,
    };
    let first = integer_field(1, record.head_peer_number as nat);
    let second = integer_field(2, record.request_number as nat);
    assert(record.encoded() + rest =~= first + (second + (body + rest)));
    lemma_integer_read(blank_record(), 1, record.head_peer_number as u64, second + (body + rest));
    let one = RecordView { head_peer_number: record.head_peer_number, ..blank_record() };
    lemma_integer_read(one, 2, record.request_number, body + rest);
    let two = RecordView { request_number: record.request_number, ..one };
    match record.body {
        Some(BodyView::Deposit { l1, l2 }) => {
            lemma_deposit_read(l1, l2, rest);
            lemma_delimited_field_read(3, bytes_field(1, l1) + bytes_field(2, l2), rest);
        },
        Some(BodyView::Transaction { l2 }) => {
            lemma_transaction_read(l2, rest);
            lemma_delimited_field_read(4, bytes_field(1, l2), rest);
        },
        None => {
            assert(body + rest =~= rest);
        },
    }
}

/// Encoding, then decoding, gives the record back.
pub proof fn law_record_round_trips(record: RecordView)
    requires
        record.encodable(),
    ensures
        record_with(blank_record(), record.encoded()) == Ok::<_, FaultView>(record),
{
    law_record_is_read_back(record, Seq::empty());
    assert(record.encoded() + Seq::<u8>::empty() =~= record.encoded());
}

/// A well-formed field this build does not know is skipped: what has been read stays as it is,
/// and reading goes on behind the field.
pub proof fn law_unknown_field_is_skipped(record: RecordView, s: Seq<u8>)
    requires
        field_key(s) matches Ok((tag, wire, n)) && !(1 <= tag <= 4) && field_skip(
            wire,
            tag,
            s.skip(n as int),
        ) is Ok,
    ensures
        ({
            let (tag, wire, n) = field_key(s)->Ok_0;
            let m = field_skip(wire, tag, s.skip(n as int))->Ok_0;
            record_with(record, s) == record_with(record, s.skip(n as int).skip(m as int))
        }),
{
}

/// A well-formed field this build does not know is skipped in a body, too, of either kind.
pub proof fn law_unknown_field_in_a_body_is_skipped(
    deposit: (Seq<u8>, Seq<u8>),
    transaction: Seq<u8>,
    s: Seq<u8>,
    limit: nat,
)
    requires
        limit < s.len(),
        field_key(s) matches Ok((tag, wire, n)) && !(1 <= tag <= 2) && nested_field_skip(
            wire,
            tag,
            s.skip(n as int),
        ) is Ok,
    ensures
        ({
            let (tag, wire, n) = field_key(s)->Ok_0;
            let m = nested_field_skip(wire, tag, s.skip(n as int))->Ok_0;
            let rest = s.skip(n as int).skip(m as int);
            &&& deposit_with(deposit, s, limit) == deposit_with(deposit, rest, limit)
            &&& transaction_with(transaction, s, limit) == transaction_with(
                transaction,
                rest,
                limit,
            )
        }),
{
}

/// A field written by a newer build behind a record is skipped, not misread.
pub proof fn law_newer_field_is_skipped(record: RecordView, tag: u32, payload: Seq<u8>)
    requires
        record.encodable(),
        4 < tag < 0x2000_0000,
        payload.len() <= u64::MAX,
    ensures
        record_with(
            blank_record(),
            record.encoded() + delimited_field(tag as nat, payload),
        ) == Ok::<_, FaultView>(record),
{
    let newer = delimited_field(tag as nat, payload);
    law_record_is_read_back(record, newer);
    assert(newer + Seq::<u8>::empty() =~= newer);
    lemma_delimited_field_read(tag, payload, Seq::empty());
    reveal_with_fuel(record_with, 2);
}

/// A number behind the byte 8 becomes the author's, cut to 32 bits, and one behind 16 the request's,
/// whatever was read before: the last one counts.
pub proof fn law_last_number_counts(record: RecordView, v: u64, rest: Seq<u8>)
    ensures
        record_with(record, seq![8u8] + varint_bytes(v as nat) + rest) == record_with(
            RecordView { head_peer_number: (v % 0x1_0000_0000) as u32, ..record },
            rest,
        ),
        record_with(record, seq![16u8] + varint_bytes(v as nat) + rest) == record_with(
            RecordView { request_number: v, ..record },
            rest,
        ),
{
    let value = varint_bytes(v as nat);
    law_varint_round_trips(v, rest);
    assert((value + rest).skip(value.len() as int) =~= rest);
    assert(varint_bytes(8) == seq![8u8]);
    assert(varint_bytes(16) == seq![16u8]);
    let first = seq![8u8] + value + rest;
    let second = seq![16u8] + value + rest;
    lemma_key_read(1, 0, value + rest);
    lemma_key_read(2, 0, value + rest);
    assert(first =~= varint_bytes(8) + (value + rest));
    assert(second =~= varint_bytes(16) + (value + rest));
    assert(field_key(first) == Ok::<_, Seq<char>>((1u32, 0u8, 1nat)));
    assert(field_key(second) == Ok::<_, Seq<char>>((2u32, 0u8, 1nat)));
    assert(first.skip(1) == value + rest && second.skip(1) == value + rest);
    assert(integer_at(0, value + rest) == Ok::<_, Seq<char>>((v as nat, value.len())));
}

/// What is there of a payload, or what was there before where nothing is.
pub open spec fn over_earlier(payload: Seq<u8>, earlier: Seq<u8>) -> Seq<u8> {
    if payload.len() > 0 {
        payload
    } else {
        earlier
    }
}

proof fn lemma_transaction_merged(earlier: Seq<u8>, l2: Seq<u8>, rest: Seq<u8>)
    requires
        l2.len() <= u64::MAX,
    ensures
        transaction_with(earlier, bytes_field(1, l2) + rest, rest.len()) == Ok::<_, FaultView>(
            (over_earlier(l2, earlier), rest),
        ),
{
    reveal_with_fuel(transaction_with, 2);
    if l2.len() > 0 {
        lemma_delimited_field_read(1, l2, rest);
    } else {
        assert(bytes_field(1, l2) + rest =~= rest);
    }
}

proof fn lemma_deposit_merged(
    earlier: (Seq<u8>, Seq<u8>),
    l1: Seq<u8>,
    l2: Seq<u8>,
    rest: Seq<u8>,
)
    requires
        l1.len() <= u64::MAX,
        l2.len() <= u64::MAX,
    ensures
        deposit_with(earlier, bytes_field(1, l1) + bytes_field(2, l2) + rest, rest.len()) == Ok::<
            _,
            FaultView,
        >(((over_earlier(l1, earlier.0), over_earlier(l2, earlier.1)), rest)),
{
    let second = bytes_field(2, l2) + rest;
    let one = over_earlier(l1, earlier.0);
    let two = over_earlier(l2, earlier.1);
    assert(deposit_with((one, earlier.1), second, rest.len()) == Ok::<_, FaultView>(
        ((one, two), rest),
    )) by {
        reveal_with_fuel(deposit_with, 2);
        if l2.len() > 0 {
            lemma_delimited_field_read(2, l2, rest);
        } else {
            assert(second =~= rest);
        }
    }
    assert(bytes_field(1, l1) + bytes_field(2, l2) + rest =~= bytes_field(1, l1) + second);
    if l1.len() > 0 {
        lemma_delimited_field_read(1, l1, second);
    } else {
        assert(bytes_field(1, l1) + second =~= second);
    }
}

/// A transaction that follows in one record replaces a deposit, and is merged into a transaction: its
/// payload counts where it has one.
pub proof fn law_later_transaction_counts(record: RecordView, l2: Seq<u8>, rest: Seq<u8>)
    requires
        l2.len() <= u64::MAX,
        bytes_field(1, l2).len() <= u64::MAX,
    ensures
        record_with(record, BodyView::Transaction { l2 }.encoded() + rest) == record_with(
            RecordView {
                body: Some(
                    BodyView::Transaction {
                        l2: match record.body {
                            Some(BodyView::Transaction { l2: earlier }) => over_earlier(
                                l2,
                                earlier,
                            ),
                            _ => l2,
                        },
                    },
                ),
                ..record
            },
            rest,
        ),
{
    let start = match record.body {
        Some(BodyView::Transaction { l2: earlier }) => earlier,
        _ => Seq::empty(),
    };
    lemma_transaction_merged(start, l2, rest);
    lemma_delimited_field_read(4, bytes_field(1, l2), rest);
    assert(l2.len() == 0 ==> l2 =~= Seq::<u8>::empty());
}

/// A deposit that follows in one record replaces a transaction, and is merged into a deposit: each of
/// its payloads counts where it has one.
pub proof fn law_later_deposit_counts(
    record: RecordView,
    l1: Seq<u8>,
    l2: Seq<u8>,
    rest: Seq<u8>,
)
    requires
        l1.len() <= u64::MAX,
        l2.len() <= u64::MAX,
        (bytes_field(1, l1) + bytes_field(2, l2)).len() <= u64::MAX,
    ensures
        record_with(record, BodyView::Deposit { l1, l2 }.encoded() + rest) == record_with(
            RecordView {
                body: Some(
                    match record.body {
                        Some(BodyView::Deposit { l1: first, l2: second }) => BodyView::Deposit {
                            l1: over_earlier(l1, first),
                            l2: over_earlier(l2, second),
                        },
                        _ => BodyView::Deposit { l1, l2 },
                    },
                ),
                ..record
            },
            rest,
        ),
{
    let start = match record.body {
        Some(BodyView::Deposit { l1: first, l2: second }) => (first, second),
        _ => (Seq::empty(), Seq::empty()),
    };
    lemma_deposit_merged(start, l1, l2, rest);
    lemma_delimited_field_read(3, bytes_field(1, l1) + bytes_field(2, l2), rest);
    assert(l1.len() == 0 ==> l1 =~= Seq::<u8>::empty());
    assert(l2.len() == 0 ==> l2 =~= Seq::<u8>::empty());
}

} // verus!
