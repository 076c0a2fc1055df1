//! The response model and its serialization to the exact HTTP/1.1 wire
//! bytes: a fixed-phrase status line, `Content-Type` and `Content-Length`
//! first, the registered headers in their stored order, a blank line, the
//! body.
use vstd::prelude::*;
use vstd::utf8::encode_utf8;
use crate::numfmt::{dec_chars, u64_to_dec};
use crate::table::{StrMap, Table};

verus! {

pub struct Response {
    pub status_code: u16,
    pub body: Vec<u8>,
    pub content_type: String,
    pub headers: StrMap,
}

/// One serialized header line.
pub open spec fn header_line_chars(p: (Seq<char>, Seq<char>)) -> Seq<char> {
    p.0 + (": ")@ + p.1 + ("\r\n")@
}

/// The registered header lines, in storage order.
pub open spec fn header_block_chars(pairs: Seq<(Seq<char>, Seq<char>)>) -> Seq<char>
    decreases pairs.len(),
{
    if pairs.len() == 0 {
        Seq::<char>::empty()
    } else {
        header_line_chars(pairs.first()) + header_block_chars(pairs.drop_first())
    }
}

/// Everything before the body: status line, the two fixed headers, the
/// registered headers, and the blank line. The reason phrase is the fixed
/// `OK` whatever the code.
pub open spec fn head_chars(status: int, ct: Seq<char>, body_len: int,
    pairs: Seq<(Seq<char>, Seq<char>)>) -> Seq<char> {
    ("HTTP/1.1 ")@ + dec_chars(status) + (" OK\r\nContent-Type: ")@ + ct
        + ("\r\nContent-Length: ")@ + dec_chars(body_len) + ("\r\n")@
        + header_block_chars(pairs) + ("\r\n")@
}

/// The full wire form: the head, UTF-8 encoded, then the raw body bytes.
pub open spec fn wire_bytes(r: Response) -> Seq<u8> {
    encode_utf8(head_chars(r.status_code as int, r.content_type@, r.body@.len() as int,
        r.headers.pairs())) + r.body@
}

impl Response {
    pub open spec fn wf(&self) -> bool {
        self.headers.wf()
    }

    pub fn new(status_code: u16, body: Vec<u8>, content_type: &str) -> (r: Self)
        ensures
            r.wf(),
            r.status_code == status_code,
            r.body@ == body@,
            r.content_type@ == content_type@,
            r.headers.pairs() =~= Seq::<(Seq<char>, Seq<char>)>::empty(),
    {
        Response {
            status_code,
            body,
            content_type: String::from_str(content_type),
            headers: Table::new(),
        }
    }

    /// Fluently attaches one header; a repeated name keeps the last value.
    pub fn with_header(self, key: &str, value: &str) -> (r: Self)
        requires
            self.wf(),
        ensures
            r.wf(),
            r.status_code == self.status_code,
            r.body@ == self.body@,
            r.content_type@ == self.content_type@,
            r.headers.spec_lookup(key@) == Some(value@),
            forall|k2: Seq<char>| k2 != key@
                ==> r.headers.spec_lookup(k2) == self.headers.spec_lookup(k2),
            !self.headers.contains_key(key@)
                ==> r.headers.pairs() =~= self.headers.pairs().push((key@, value@)),
    {
        let mut r = self;
        r.headers.insert(String::from_str(key), String::from_str(value));
        r
    }

    /// Serializes to the exact wire bytes.
    pub fn to_http(&self) -> (r: Vec<u8>)
        ensures
            r@ == wire_bytes(*self),
    {
        let mut h = String::from_str("HTTP/1.1 ");
        h.append(u64_to_dec(self.status_code as u64).as_str());
        h.append(" OK\r\nContent-Type: ");
        h.append(self.content_type.as_str());
        h.append("\r\nContent-Length: ");
        h.append(u64_to_dec(self.body.len() as u64).as_str());
        h.append("\r\n");
        let ghost fixed = h@;
        let ghost pairs = self.headers.pairs();
        let m = self.headers.entries.len();
        let mut i: usize = 0;
        proof {
            assert(pairs.skip(0) =~= pairs);
        }
        while i < m
            invariant
                0 <= i <= m,
                m == self.headers.entries@.len(),
                pairs == self.headers.pairs(),
                h@.add(header_block_chars(pairs.skip(i as int)))
                    =~= fixed.add(header_block_chars(pairs)),
            decreases m - i,
        {
            let ghost before = h@;
            h.append(self.headers.entries[i].0.as_str());
            h.append(": ");
            h.append(self.headers.entries[i].1.as_str());
            h.append("\r\n");
            proof {
                assert(h@ =~= before + header_line_chars(pairs.skip(i as int).first()));
                assert(pairs.skip(i as int).drop_first() =~= pairs.skip(i + 1));
            }
            i += 1;
        }
        proof {
            assert(pairs.skip(m as int) =~= Seq::<(Seq<char>, Seq<char>)>::empty());
            assert(h@.add(Seq::<char>::empty()) =~= h@);
        }
        h.append("\r\n");
        proof {
            assert(h@ =~= head_chars(self.status_code as int, self.content_type@,
                self.body@.len() as int, pairs));
        }
        let mut out = h.as_str().as_bytes_vec();
        out.extend_from_slice(self.body.as_slice());
        out
    }
}

} // verus!
