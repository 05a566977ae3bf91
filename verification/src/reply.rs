//! Replies to requests.

use vstd::prelude::*;
use crate::request::Header;
#[allow(unused_imports)]
use crate::request::headers_view;

verus! {

/// What a reply says.
pub ghost struct ReplyView {
    pub status: int,
    pub headers: Seq<(Seq<char>, Seq<char>)>,
    pub body: Seq<u8>,
}

/// A reply to a request.
#[derive(Debug)]
pub struct Reply {
    pub status: u16,
    pub headers: Vec<Header>,
    pub body: Vec<u8>,
}

impl View for Reply {
    type V = ReplyView;

    open spec fn view(&self) -> ReplyView {
        ReplyView {
            status: self.status as int,
            headers: headers_view(self.headers@),
            body: self.body@,
        }
    }
}

/// A reply of plain text.
pub open spec fn text_reply(status: int, text: Seq<char>) -> ReplyView {
    ReplyView {
        status,
        headers: seq![("Content-Type"@, "text/plain; charset=UTF-8"@)],
        body: vstd::utf8::encode_utf8(text),
    }
}

/// A reply with some data and headers.
pub open spec fn data_reply(
    status: int,
    headers: Seq<(Seq<char>, Seq<char>)>,
    body: Seq<u8>,
) -> ReplyView {
    ReplyView { status, headers, body }
}

impl Reply {
    /// A reply of plain text.
    pub fn from_string(status: u16, text: &str) -> (r: Self)
        ensures
            r@ == text_reply(status as int, text@),
            r.status == status,
            r.body@ == vstd::utf8::encode_utf8(text@),
    {
        let mut headers: Vec<Header> = Vec::new();
        headers.push(Header::new("Content-Type", "text/plain; charset=UTF-8"));
        assert(headers_view(headers@) =~= seq![
            ("Content-Type"@, "text/plain; charset=UTF-8"@),
        ]);
        Reply { status, headers, body: text.as_bytes_vec() }
    }

    /// A reply of some data, without headers.
    pub fn from_data(status: u16, body: Vec<u8>) -> (r: Self)
        ensures
            r@ == data_reply(status as int, Seq::empty(), body@),
            r.status == status,
            r.body == body,
            r.headers@.len() == 0,
    {
        let headers: Vec<Header> = Vec::new();
        assert(headers_view(headers@) =~= Seq::<(Seq<char>, Seq<char>)>::empty());
        Reply { status, headers, body }
    }

    /// Adds a header after the others.
    pub fn add_header(&mut self, field: &str, value: &str)
        ensures
            final(self)@ == (ReplyView {
                headers: old(self)@.headers.push((field@, value@)),
                ..old(self)@
            }),
    {
        self.headers.push(Header::new(field, value));
        assert(headers_view(self.headers@) =~= headers_view(old(self).headers@).push(
            (field@, value@),
        ));
    }
}

/// A reply of plain text carries the text in UTF-8 and says so.
pub proof fn law_text_replies_carry_their_text(status: int, text: Seq<char>)
    ensures
        text_reply(status, text).status == status,
        text_reply(status, text).headers == seq![
            ("Content-Type"@, "text/plain; charset=UTF-8"@),
        ],
        vstd::utf8::decode_utf8(text_reply(status, text).body) == text,
{
    vstd::utf8::encode_utf8_decode_utf8(text);
}

/// A reply with some data carries them and its headers unchanged.
pub proof fn law_data_replies_carry_their_data(
    status: int,
    headers: Seq<(Seq<char>, Seq<char>)>,
    body: Seq<u8>,
)
    ensures
        data_reply(status, headers, body).status == status,
        data_reply(status, headers, body).headers == headers,
        data_reply(status, headers, body).body == body,
{
}

} // verus!
