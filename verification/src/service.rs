//! A small item service whose responses are built from the requested id.
//!
//! The service is the library's demonstration counterpart to the decoder: a
//! peer whose traffic the sniffer can observe. Its response text embeds the
//! requested id in decimal, formatted by a verified routine.

use vstd::prelude::*;

verus! {

/// The decimal digits of `n`, most significant first, as ASCII bytes.
pub open spec fn spec_decimal_digits(n: nat) -> Seq<u8>
    decreases n,
        via spec_decimal_digits_decreases
{
    if n < 10 {
        seq![(0x30 + n) as u8]
    } else {
        spec_decimal_digits(n / 10) + seq![(0x30 + n % 10) as u8]
    }
}

#[via_fn]
proof fn spec_decimal_digits_decreases(n: nat) {
    assert(n >= 10 ==> n / 10 < n) by (nonlinear_arith);
}

/// The decimal text of a signed value: a minus sign for negative values,
/// then the digits of the magnitude.
pub open spec fn spec_decimal_i64(n: int) -> Seq<u8> {
    if n < 0 {
        seq![0x2du8] + spec_decimal_digits((-n) as nat)
    } else {
        spec_decimal_digits(n as nat)
    }
}

/// Appends the decimal digits of `m` to `out`.
fn push_decimal_digits(m: u64, out: &mut Vec<u8>)
    ensures
        final(out)@ == old(out)@ + spec_decimal_digits(m as nat),
    decreases m,
{
    if m < 10 {
        out.push(0x30 + (m as u8));
        proof {
            assert(out@ =~= old(out)@ + spec_decimal_digits(m as nat));
        }
    } else {
        proof {
            assert(m / 10 < m) by (nonlinear_arith)
                requires
                    m >= 10,
            ;
        }
        push_decimal_digits(m / 10, out);
        out.push(0x30 + ((m % 10) as u8));
        proof {
            assert(out@ =~= old(out)@ + spec_decimal_digits(m as nat));
        }
    }
}

/// Appends the decimal text of `n` to `out`.
fn push_decimal_i64(n: i64, out: &mut Vec<u8>)
    ensures
        final(out)@ == old(out)@ + spec_decimal_i64(n as int),
{
    if n < 0 {
        out.push(0x2d);
        let m: u64 = if n == i64::MIN {
            0x8000_0000_0000_0000u64
        } else {
            (-n) as u64
        };
        push_decimal_digits(m, out);
        proof {
            assert(out@ =~= old(out)@ + spec_decimal_i64(n as int));
        }
    } else {
        push_decimal_digits(n as u64, out);
    }
}

/// Formats a signed value in decimal.
pub fn format_i64(n: i64) -> (r: Vec<u8>)
    ensures
        r@ == spec_decimal_i64(n as int),
{
    let mut out: Vec<u8> = Vec::new();
    push_decimal_i64(n, &mut out);
    proof {
        assert(out@ =~= spec_decimal_i64(n as int));
    }
    out
}

/// The bytes of the item title before the id.
pub open spec fn spec_title_prefix() -> Seq<u8> {
    seq![0x49u8, 0x74u8, 0x65u8, 0x6du8, 0x20u8]
}

/// The bytes of the item content before the id.
pub open spec fn spec_content_prefix() -> Seq<u8> {
    seq![
        0x54u8,
        0x68u8,
        0x69u8,
        0x73u8,
        0x20u8,
        0x69u8,
        0x73u8,
        0x20u8,
        0x74u8,
        0x68u8,
        0x65u8,
        0x20u8,
        0x63u8,
        0x6fu8,
        0x6eu8,
        0x74u8,
        0x65u8,
        0x6eu8,
        0x74u8,
        0x20u8,
        0x66u8,
        0x6fu8,
        0x72u8,
        0x20u8,
        0x69u8,
        0x74u8,
        0x65u8,
        0x6du8,
        0x20u8,
    ]
}

/// One served item: its id, its texts as UTF-8 bytes, and optional extra
/// key/value metadata.
#[derive(Debug, PartialEq)]
pub struct Item {
    pub id: i64,
    pub title: Vec<u8>,
    pub content: Vec<u8>,
    pub extra: Option<Vec<(Vec<u8>, Vec<u8>)>>,
}

/// A request for one item by id.
#[derive(Debug, PartialEq)]
pub struct GetItemRequest {
    pub id: i64,
}

/// The answer to a `GetItemRequest`.
#[derive(Debug, PartialEq)]
pub struct GetItemResponse {
    pub item: Item,
}

/// The item service.
pub struct S;

impl S {
    /// Builds the item named by the request: the title reads `Item <id>`,
    /// the content embeds the same decimal id, and the extra map is present
    /// and empty.
    pub fn get_item(&self, req: GetItemRequest) -> (r: GetItemResponse)
        ensures
            r.item.id == req.id,
            r.item.title@ == spec_title_prefix() + spec_decimal_i64(req.id as int),
            r.item.content@ == spec_content_prefix() + spec_decimal_i64(req.id as int),
            r.item.extra matches Some(m) && m@.len() == 0,
    {
        let mut title: Vec<u8> = Vec::new();
        title.push(0x49);
        title.push(0x74);
        title.push(0x65);
        title.push(0x6d);
        title.push(0x20);
        proof {
            assert(title@ =~= spec_title_prefix());
        }
        push_decimal_i64(req.id, &mut title);
        let mut content: Vec<u8> = Vec::new();
        content.push(0x54);
        content.push(0x68);
        content.push(0x69);
        content.push(0x73);
        content.push(0x20);
        content.push(0x69);
        content.push(0x73);
        content.push(0x20);
        content.push(0x74);
        content.push(0x68);
        content.push(0x65);
        content.push(0x20);
        content.push(0x63);
        content.push(0x6f);
        content.push(0x6e);
        content.push(0x74);
        content.push(0x65);
        content.push(0x6e);
        content.push(0x74);
        content.push(0x20);
        content.push(0x66);
        content.push(0x6f);
        content.push(0x72);
        content.push(0x20);
        content.push(0x69);
        content.push(0x74);
        content.push(0x65);
        content.push(0x6d);
        content.push(0x20);
        proof {
            assert(content@ =~= spec_content_prefix());
        }
        push_decimal_i64(req.id, &mut content);
        GetItemResponse { item: Item { id: req.id, title, content, extra: Some(Vec::new()) } }
    }
}

} // verus!
