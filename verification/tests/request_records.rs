//! The Request journal's records, held against bytes written out by hand.

use hydrozoa_tools::store::error::StoreError;
use hydrozoa_tools::store::request_record::{
    DepositBody, RequestBody, RequestRecord, TransactionBody,
};

/// A deterministic payload.
fn payload(length: usize) -> Vec<u8> {
    (0..length)
        .map(|i| (i.wrapping_mul(37) + 11) as u8)
        .collect()
}

/// Four cases that cover the encoding's edges: default omission (peer 0 and request 0 encode as
/// absent fields), both bodies, a request number past 2^32, and a realistic transaction payload.
fn cases() -> Vec<(&'static str, RequestRecord)> {
    vec![
        (
            "transaction-zero-id",
            RequestRecord {
                head_peer_number: 0,
                request_number: 0,
                body: Some(RequestBody::Transaction(TransactionBody {
                    l2_payload: payload(4),
                })),
            },
        ),
        (
            "transaction-large-number",
            RequestRecord {
                head_peer_number: 5,
                request_number: (1u64 << 32) + 12345,
                body: Some(RequestBody::Transaction(TransactionBody {
                    l2_payload: payload(16),
                })),
            },
        ),
        (
            "transaction-realistic",
            RequestRecord {
                head_peer_number: 2,
                request_number: 913,
                body: Some(RequestBody::Transaction(TransactionBody {
                    l2_payload: payload(800),
                })),
            },
        ),
        (
            "deposit-basic",
            RequestRecord {
                head_peer_number: 3,
                request_number: 7,
                body: Some(RequestBody::Deposit(DepositBody {
                    l1_payload: payload(220),
                    l2_payload: payload(96),
                })),
            },
        ),
    ]
}

/// The bytes of each case: every length and number written out.
fn golden(name: &str) -> Vec<u8> {
    let mut out: Vec<u8> = Vec::new();
    match name {
        "transaction-zero-id" => {
            out.extend([0x22, 6, 0x0a, 4]);
            out.extend(payload(4));
        }
        "transaction-large-number" => {
            out.extend([0x08, 5]);
            out.extend([0x10, 0xb9, 0xe0, 0x80, 0x80, 0x10]);
            out.extend([0x22, 18, 0x0a, 16]);
            out.extend(payload(16));
        }
        "transaction-realistic" => {
            out.extend([0x08, 2, 0x10, 0x91, 0x07]);
            out.extend([0x22, 0xa3, 0x06, 0x0a, 0xa0, 0x06]);
            out.extend(payload(800));
        }
        "deposit-basic" => {
            out.extend([0x08, 3, 0x10, 7]);
            out.extend([0x1a, 0xc1, 0x02, 0x0a, 0xdc, 0x01]);
            out.extend(payload(220));
            out.extend([0x12, 96]);
            out.extend(payload(96));
        }
        _ => panic!("no such case: {name}"),
    }
    out
}

#[test]
fn every_golden_fixture_decodes_to_its_case() {
    for (name, expected) in cases() {
        let decoded = RequestRecord::decode_payload(&golden(name))
            .unwrap_or_else(|e| panic!("decoding {name}: {}", e.message()));
        assert_eq!(decoded, expected, "{name} decoded to something else");
    }
}

#[test]
fn every_case_re_encodes_to_its_golden_bytes() {
    for (name, record) in cases() {
        assert_eq!(
            record.encode_to_vec(),
            golden(name),
            "{name} re-encoded differently"
        );
    }
}

#[test]
fn a_records_kind_comes_from_which_body_is_present() {
    for (name, record) in cases() {
        let expected = if name.starts_with("deposit") {
            "deposit"
        } else {
            "transaction"
        };
        assert_eq!(record.kind(), Some(expected), "{name}");
    }
}

/// A body-less record is reported as an unknown kind: an archiver copies the bytes either way, and
/// refusing to read a journal entry it can still archive would be the worse failure.
#[test]
fn a_record_with_no_body_reads_as_an_unknown_kind() {
    let bodyless = RequestRecord {
        head_peer_number: 3,
        request_number: 7,
        body: None,
    };
    let decoded = RequestRecord::decode_payload(&bodyless.encode_to_vec()).unwrap();
    assert_eq!(decoded.kind(), None);
}

/// Forward compatibility: a build that does not know a field must skip it, not fail.
#[test]
fn a_field_written_by_a_newer_build_is_skipped_not_misread() {
    let mut bytes = golden("deposit-basic");
    // Field 9, length-delimited: key byte 0x4a, then a 4-byte payload.
    bytes.extend_from_slice(&[0x4a, 0x04, b'n', b'e', b'w', b'!']);

    let decoded = RequestRecord::decode_payload(&bytes).unwrap();
    let (_, expected) = cases()
        .into_iter()
        .find(|(n, _)| *n == "deposit-basic")
        .unwrap();
    assert_eq!(decoded, expected);
}

#[test]
fn unknown_fields_of_every_wire_type_are_skipped() {
    let mut bytes: Vec<u8> = Vec::new();
    // Field 5 as a varint, field 6 as 64 bits, field 7 as 32 bits, and field 8 as a group that
    // holds a varint.
    bytes.extend([0x28, 0xff, 0x01]);
    bytes.extend([0x31, 1, 2, 3, 4, 5, 6, 7, 8]);
    bytes.extend([0x3d, 1, 2, 3, 4]);
    bytes.extend([0x43, 0x08, 0x05, 0x44]);
    bytes.extend(golden("transaction-zero-id"));
    let decoded = RequestRecord::decode_payload(&bytes).unwrap();
    assert_eq!(decoded, cases()[0].1);
}

#[test]
fn fields_merge_as_they_come() {
    // The head peer's number twice, a transaction, then two parts of a deposit.
    let bytes = [
        0x08, 1, 0x08, 9, 0x22, 3, 0x0a, 1, 7, 0x1a, 3, 0x0a, 1, 5, 0x1a, 3, 0x12, 1, 6,
    ];
    let decoded = RequestRecord::decode_payload(&bytes).unwrap();
    assert_eq!(decoded.head_peer_number, 9);
    assert_eq!(
        decoded.body,
        Some(RequestBody::Deposit(DepositBody {
            l1_payload: vec![5],
            l2_payload: vec![6],
        }))
    );
}

#[test]
fn a_peer_number_keeps_its_low_bits() {
    // 2^32 + 3.
    let bytes = [0x08, 0x83, 0x80, 0x80, 0x80, 0x10];
    let decoded = RequestRecord::decode_payload(&bytes).unwrap();
    assert_eq!(decoded.head_peer_number, 3);
}

#[test]
fn malformed_records_are_refused() {
    let past_64_bits = vec![0x10, 255, 255, 255, 255, 255, 255, 255, 255, 255, 2];
    let bad: Vec<(Vec<u8>, &str)> = vec![
        // A key and nothing behind it.
        (vec![0x08], "RequestRecord.head_peer_number: invalid varint"),
        (past_64_bits, "RequestRecord.request_number: invalid varint"),
        // The peer number as bytes, and a deposit as a number.
        (
            vec![0x0a, 1, 0],
            "RequestRecord.head_peer_number: invalid wire type: LengthDelimited (expected Varint)",
        ),
        (
            vec![0x18, 1],
            "RequestRecord.body: invalid wire type: Varint (expected LengthDelimited)",
        ),
        // A body longer than what is there, and a payload longer than what is there.
        (vec![0x22, 5, 0x0a, 1], "RequestRecord.body: buffer underflow"),
        (
            vec![0x22, 2, 0x0a, 5],
            "TransactionBody.l2_payload: RequestRecord.body: buffer underflow",
        ),
        (
            vec![0x1a, 2, 0x0a, 5],
            "DepositBody.l1_payload: RequestRecord.body: buffer underflow",
        ),
        (
            vec![0x1a, 1, 0x10],
            "DepositBody.l2_payload: RequestRecord.body: invalid wire type: Varint (expected LengthDelimited)",
        ),
        // A payload that ends behind its body.
        (
            vec![0x22, 3, 0x0a, 4, 1, 2, 3, 4],
            "RequestRecord.body: delimited length exceeded",
        ),
        (vec![0x00, 1], "invalid tag value: 0"),
        (vec![0x0e], "invalid wire type value: 6"),
        (vec![0xff, 0xff, 0xff, 0xff, 0x7f], "invalid key value: 34359738367"),
        (vec![0x80], "invalid varint"),
        // The end of a group never begun, in the record and in a body.
        (vec![0x44], "unexpected end group tag"),
        (vec![0x22, 1, 0x44], "RequestRecord.body: unexpected end group tag"),
        (vec![0x29, 1, 2], "buffer underflow"),
    ];
    for (bytes, why) in bad {
        let account = match RequestRecord::decode_payload(&bytes) {
            Err(StoreError::UndecodableRecord { account }) => account,
            _ => panic!("{bytes:?} is refused"),
        };
        assert_eq!(account, format!("failed to decode Protobuf message: {why}"));
        agrees(&bytes);
    }
    let refusal = RequestRecord::decode_payload(&[0x80]).unwrap_err();
    assert_eq!(refusal.message(), "failed to decode Protobuf message: invalid varint");
}

#[test]
fn an_empty_payload_is_a_blank_record() {
    let decoded = RequestRecord::decode_payload(&[]).unwrap();
    assert_eq!(decoded.head_peer_number, 0);
    assert_eq!(decoded.request_number, 0);
    assert_eq!(decoded.body, None);
    assert!(decoded.encode_to_vec().is_empty());
}

#[test]
fn a_body_is_written_even_when_it_is_empty() {
    let record = RequestRecord {
        head_peer_number: 0,
        request_number: u64::MAX,
        body: Some(RequestBody::Deposit(DepositBody {
            l1_payload: vec![],
            l2_payload: vec![],
        })),
    };
    let bytes = record.encode_to_vec();
    assert_eq!(
        bytes,
        vec![0x10, 255, 255, 255, 255, 255, 255, 255, 255, 255, 1, 0x1a, 0]
    );
    assert_eq!(RequestRecord::decode_payload(&bytes).unwrap(), record);
}

/// The same record, read by `prost` alone.
#[derive(Default, Debug)]
struct Plain {
    head_peer_number: u32,
    request_number: u64,
    body: Option<PlainBody>,
}

#[derive(Debug)]
enum PlainBody {
    Deposit(PlainDeposit),
    Transaction(PlainTransaction),
}

#[derive(Default, Debug)]
struct PlainDeposit {
    l1_payload: Vec<u8>,
    l2_payload: Vec<u8>,
}

#[derive(Default, Debug)]
struct PlainTransaction {
    l2_payload: Vec<u8>,
}

fn placed(
    read: Result<(), prost::DecodeError>,
    message: &'static str,
    field: &'static str,
) -> Result<(), prost::DecodeError> {
    read.map_err(|mut e| {
        e.push(message, field);
        e
    })
}

impl prost::Message for PlainDeposit {
    fn encode_raw(&self, _buf: &mut impl prost::bytes::BufMut) {}

    fn merge_field(
        &mut self,
        tag: u32,
        wire_type: prost::encoding::WireType,
        buf: &mut impl prost::bytes::Buf,
        ctx: prost::encoding::DecodeContext,
    ) -> Result<(), prost::DecodeError> {
        match tag {
            1 => placed(
                prost::encoding::bytes::merge(wire_type, &mut self.l1_payload, buf, ctx),
                "DepositBody",
                "l1_payload",
            ),
            2 => placed(
                prost::encoding::bytes::merge(wire_type, &mut self.l2_payload, buf, ctx),
                "DepositBody",
                "l2_payload",
            ),
            _ => prost::encoding::skip_field(wire_type, tag, buf, ctx),
        }
    }

    fn encoded_len(&self) -> usize {
        0
    }

    fn clear(&mut self) {}
}

impl prost::Message for PlainTransaction {
    fn encode_raw(&self, _buf: &mut impl prost::bytes::BufMut) {}

    fn merge_field(
        &mut self,
        tag: u32,
        wire_type: prost::encoding::WireType,
        buf: &mut impl prost::bytes::Buf,
        ctx: prost::encoding::DecodeContext,
    ) -> Result<(), prost::DecodeError> {
        match tag {
            1 => placed(
                prost::encoding::bytes::merge(wire_type, &mut self.l2_payload, buf, ctx),
                "TransactionBody",
                "l2_payload",
            ),
            _ => prost::encoding::skip_field(wire_type, tag, buf, ctx),
        }
    }

    fn encoded_len(&self) -> usize {
        0
    }

    fn clear(&mut self) {}
}

impl prost::Message for Plain {
    fn encode_raw(&self, _buf: &mut impl prost::bytes::BufMut) {}

    fn merge_field(
        &mut self,
        tag: u32,
        wire_type: prost::encoding::WireType,
        buf: &mut impl prost::bytes::Buf,
        ctx: prost::encoding::DecodeContext,
    ) -> Result<(), prost::DecodeError> {
        match tag {
            1 => placed(
                prost::encoding::uint32::merge(wire_type, &mut self.head_peer_number, buf, ctx),
                "RequestRecord",
                "head_peer_number",
            ),
            2 => placed(
                prost::encoding::uint64::merge(wire_type, &mut self.request_number, buf, ctx),
                "RequestRecord",
                "request_number",
            ),
            3 => {
                let mut deposit = match self.body.take() {
                    Some(PlainBody::Deposit(d)) => d,
                    _ => PlainDeposit::default(),
                };
                let read = prost::encoding::message::merge(wire_type, &mut deposit, buf, ctx);
                self.body = Some(PlainBody::Deposit(deposit));
                placed(read, "RequestRecord", "body")
            }
            4 => {
                let mut transaction = match self.body.take() {
                    Some(PlainBody::Transaction(t)) => t,
                    _ => PlainTransaction::default(),
                };
                let read = prost::encoding::message::merge(wire_type, &mut transaction, buf, ctx);
                self.body = Some(PlainBody::Transaction(transaction));
                placed(read, "RequestRecord", "body")
            }
            _ => prost::encoding::skip_field(wire_type, tag, buf, ctx),
        }
    }

    fn encoded_len(&self) -> usize {
        0
    }

    fn clear(&mut self) {}
}

/// Whether `prost` alone reads the same out of a payload, or refuses it with the same words.
fn agrees(bytes: &[u8]) {
    let plain = match <Plain as prost::Message>::decode(bytes) {
        Ok(p) => Ok(RequestRecord {
            head_peer_number: p.head_peer_number,
            request_number: p.request_number,
            body: p.body.map(|b| match b {
                PlainBody::Deposit(d) => RequestBody::Deposit(DepositBody {
                    l1_payload: d.l1_payload,
                    l2_payload: d.l2_payload,
                }),
                PlainBody::Transaction(t) => RequestBody::Transaction(TransactionBody {
                    l2_payload: t.l2_payload,
                }),
            }),
        }),
        Err(e) => Err(e.to_string()),
    };
    let decoded = RequestRecord::decode_payload(bytes).map_err(|e| e.message());
    assert_eq!(decoded, plain, "{bytes:?}");
}

/// Numbers that look random.
fn shuffled(state: &mut u64) -> u64 {
    *state ^= *state << 13;
    *state ^= *state >> 7;
    *state ^= *state << 17;
    *state
}

#[test]
fn whatever_the_bytes_prost_alone_agrees() {
    let mut state = 0x9e37_79b9_7f4a_7c15;
    // Bytes that make keys, lengths, markers and long integers likely.
    let likely = [
        0u8, 1, 2, 3, 4, 5, 6, 0x08, 0x0a, 0x0b, 0x0c, 0x0d, 0x0e, 0x10, 0x12, 0x1a, 0x22, 0x2a,
        0x43, 0x44, 0x4b, 0x4c, 0x7f, 0x80, 0xff,
    ];
    for _ in 0..60_000 {
        let len = shuffled(&mut state) % 24;
        let bytes: Vec<u8> = (0..len)
            .map(|_| likely[(shuffled(&mut state) % likely.len() as u64) as usize])
            .collect();
        agrees(&bytes);
    }
    for (name, _) in cases() {
        let whole = golden(name);
        for cut in 0..whole.len() {
            agrees(&whole[..cut]);
        }
        for _ in 0..4_000 {
            let mut bytes = whole.clone();
            for _ in 0..1 + shuffled(&mut state) % 3 {
                let at = (shuffled(&mut state) % bytes.len().min(12) as u64) as usize;
                bytes[at] = shuffled(&mut state) as u8;
            }
            agrees(&bytes);
        }
    }
}

/// Groups of field 8, one within the other.
fn groups(depth: usize) -> Vec<u8> {
    let mut bytes = vec![0x43; depth];
    bytes.extend(vec![0x44; depth]);
    bytes
}

#[test]
fn groups_nest_one_level_less_in_a_body() {
    for depth in [1, 2, 60, 98, 99, 100, 101, 200] {
        let bytes = groups(depth);
        let decoded = RequestRecord::decode_payload(&bytes);
        assert_eq!(decoded.is_ok(), depth <= 100, "depth {depth}");
        agrees(&bytes);

        for field in [0x1a, 0x22] {
            let mut body = vec![field];
            prost::encoding::encode_varint(bytes.len() as u64, &mut body);
            body.extend(&bytes);
            body.extend([0x10, 7]);
            let decoded = RequestRecord::decode_payload(&body);
            assert_eq!(decoded.is_ok(), depth <= 99, "depth {depth}");
            agrees(&body);
            // Never ended, which is not found out where the depth is.
            let mut open = vec![field, depth as u8];
            open.extend(vec![0x43; depth]);
            agrees(&open[..open.len().min(2 + 127)]);
            if let Ok(record) = decoded {
                assert_eq!(record.request_number, 7);
                assert!(record.body.is_some());
            }
        }
    }
}

#[test]
fn a_malformed_group_in_a_body_is_refused() {
    for body in [
        vec![0x43],                   // never ended
        vec![0x43, 0x4c],             // ended as another
        vec![0x43, 0x08, 0x44],       // a varint that is not one
        vec![0x43, 0x43, 0x44],       // the inner one ended only
        vec![0x43, 0x44, 0x44],       // ended twice
    ] {
        let mut bytes = vec![0x22, body.len() as u8];
        bytes.extend(body);
        assert!(RequestRecord::decode_payload(&bytes).is_err(), "{bytes:?}");
        agrees(&bytes);
    }
    let bytes = [0x22, 6, 0x43, 0x08, 5, 0x44, 0x0a, 0];
    assert!(RequestRecord::decode_payload(&bytes).is_ok());
}
