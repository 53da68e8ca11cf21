//! Error replies: a status, a message, and what a media client needs to tell failures apart.

use vstd::prelude::*;

use crate::text::chars_of;

verus! {

/// An error reply.
pub struct ApiError {
    pub status: u16,
    pub detail: String,
    pub code: Option<&'static str>,
    pub stage: Option<&'static str>,
    pub attempt_id: Option<String>,
}

#[verifier::ext_equal]
pub struct ErrorModel {
    pub status: u16,
    pub detail: Seq<char>,
    pub code: Option<Seq<char>>,
    pub stage: Option<Seq<char>>,
    pub attempt_id: Option<Seq<char>>,
}

pub open spec fn label_of(s: Option<&'static str>) -> Option<Seq<char>> {
    match s {
        Some(s) => Some(s@),
        None => None,
    }
}

impl View for ApiError {
    type V = ErrorModel;

    open spec fn view(&self) -> ErrorModel {
        ErrorModel {
            status: self.status,
            detail: self.detail@,
            code: label_of(self.code),
            stage: label_of(self.stage),
            attempt_id: crate::models::text_of(self.attempt_id),
        }
    }
}

/// A reply with nothing but a status and a message.
pub open spec fn plain(status: u16, detail: Seq<char>) -> ErrorModel {
    ErrorModel { status, detail, code: None, stage: None, attempt_id: None }
}

pub open spec fn is_hex_digit(c: char) -> bool {
    ('0' <= c && c <= '9') || ('a' <= c && c <= 'f') || ('A' <= c && c <= 'F')
}

/// The hexadecimal digits of a text, in order.
pub open spec fn hex_digits(s: Seq<char>) -> Seq<char>
    decreases s.len(),
{
    if s.len() == 0 {
        Seq::empty()
    } else if is_hex_digit(s.last()) {
        hex_digits(s.drop_last()).push(s.last())
    } else {
        hex_digits(s.drop_last())
    }
}

/// What of a client's attempt number is sent back: its first 32 hexadecimal digits.
pub open spec fn attempt_of(s: Seq<char>) -> Seq<char> {
    let digits = hex_digits(s);
    if digits.len() > 32 {
        digits.take(32)
    } else {
        digits
    }
}

/// An attempt number that is sent back holds hexadecimal digits only, at most 32 of them.
pub proof fn attempt_ids_are_short_and_plain(s: Seq<char>)
    ensures
        attempt_of(s).len() <= 32,
        forall|i: int| 0 <= i < attempt_of(s).len() ==> is_hex_digit(#[trigger] attempt_of(s)[i]),
{
    lemma_hex_digits(s);
}

proof fn lemma_hex_digits(s: Seq<char>)
    ensures
        forall|i: int| 0 <= i < hex_digits(s).len() ==> is_hex_digit(#[trigger] hex_digits(s)[i]),
    decreases s.len(),
{
    if s.len() > 0 {
        let before = hex_digits(s.drop_last());
        lemma_hex_digits(s.drop_last());
        assert forall|i: int| 0 <= i < hex_digits(s).len() implies is_hex_digit(
            #[trigger] hex_digits(s)[i],
        ) by {
            if i < before.len() {
                assert(hex_digits(s)[i] == before[i]);
            }
        }
    }
}

fn attempt_text(attempt: &str) -> (r: String)
    ensures
        r@ == attempt_of(attempt@),
{
    let v = chars_of(attempt);
    let mut r = String::new();
    let mut kept: usize = 0;
    let mut i: usize = 0;
    assert(r@ =~= attempt_of(v@.take(0)));
    while i < v.len()
        invariant
            i <= v.len(),
            kept <= 32,
            kept == r@.len(),
            r@ == attempt_of(v@.take(i as int)),
        decreases v.len() - i,
    {
        let c = v[i];
        assert(v@.take(i + 1).drop_last() =~= v@.take(i as int));
        let hex: bool = ('0' <= c && c <= '9') || ('a' <= c && c <= 'f') || ('A' <= c && c <= 'F');
        let ghost digits = hex_digits(v@.take(i as int));
        if hex && kept < 32 {
            r.push(c);
            kept += 1;
        } else if hex {
            assert(digits.push(c).take(32) =~= r@);
        }
        i += 1;
        assert(r@ =~= attempt_of(v@.take(i as int)));
    }
    assert(v@.take(i as int) =~= v@);
    r
}

impl ApiError {
    pub fn new(status: u16, detail: String) -> (r: Self)
        ensures
            r@ == plain(status, detail@),
    {
        ApiError { status, detail, code: None, stage: None, attempt_id: None }
    }

    /// The same reply with a code that clients match on.
    pub fn coded(self, code: &'static str) -> (r: Self)
        ensures
            r@ == (ErrorModel { code: Some(code@), ..self@ }),
    {
        ApiError { code: Some(code), ..self }
    }

    /// The same reply with the stage that failed and the attempt that it belongs to.
    pub fn media_context(self, stage: &'static str, attempt: &str) -> (r: Self)
        ensures
            r@ == (ErrorModel {
                stage: Some(stage@),
                attempt_id: Some(attempt_of(attempt@)),
                ..self@
            }),
    {
        ApiError { stage: Some(stage), attempt_id: Some(attempt_text(attempt)), ..self }
    }

    pub fn not_found(detail: String) -> (r: Self)
        ensures
            r@ == plain(404, detail@),
    {
        Self::new(404, detail)
    }

    pub fn bad_request(detail: String) -> (r: Self)
        ensures
            r@ == plain(400, detail@),
    {
        Self::new(400, detail)
    }

    /// A failure of a music platform keeps its own status and code; a number that is no status
    /// becomes 502.
    pub fn from_provider(status: u16, detail: String, code: &'static str) -> (r: Self)
        ensures
            r@ == (ErrorModel {
                code: Some(code@),
                ..plain(
                    if 100 <= status <= 999 {
                        status
                    } else {
                        502
                    },
                    detail@,
                )
            }),
    {
        let status: u16 = if 100 <= status && status <= 999 {
            status
        } else {
            502
        };
        Self::new(status, detail).coded(code)
    }

    /// Whether the failure is this server's own.
    pub fn is_server_error(&self) -> (r: bool)
        ensures
            r == (500 <= self@.status < 600),
    {
        500 <= self.status && self.status < 600
    }
}

/// A text, or the reply that refuses it.
pub open spec fn text_result(r: Result<String, ApiError>) -> Result<Seq<char>, ErrorModel> {
    match r {
        Ok(text) => Ok(text@),
        Err(e) => Err(e@),
    }
}

/// Success, or the reply that refuses it.
pub open spec fn check_result(r: Result<(), ApiError>) -> Result<(), ErrorModel> {
    match r {
        Ok(()) => Ok(()),
        Err(e) => Err(e@),
    }
}

/// A refusal with status 400.
pub open spec fn bad(detail: Seq<char>) -> ErrorModel {
    plain(400, detail)
}

} // verus!
