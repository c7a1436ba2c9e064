use vstd::prelude::*;
use vstd::string::StringSliceAdditionalSpecFns;

verus! {

/// `'`, which stands for a double quote inside a `value` on the wire.
pub const SINGLE_QUOTE: u8 = 39;

/// `"`, which never appears inside a `value` on the wire.
pub const DOUBLE_QUOTE: u8 = 34;

/// Largest encoded reply, delimiter included.
pub const RESPONSE_CAPACITY: usize = 512;

/// Start of an encoded reply, up to the status code.
pub const CODE_PREFIX: &'static str = "{\"code\":";

/// Between the status code and the attribute name.
pub const ATTRIBUTE_PREFIX: &'static str = ",\"attribute\":\"";

/// Between the attribute name and the value.
pub const VALUE_PREFIX: &'static str = "\",\"value\":\"";

/// End of an encoded reply, before the delimiter.
pub const REPLY_SUFFIX: &'static str = "\"}";

/// Every single quote of `v` turned into a double quote (the decode side of the wire).
pub open spec fn restore_spec(v: Seq<u8>) -> Seq<u8> {
    v.map_values(|b: u8| if b == SINGLE_QUOTE { DOUBLE_QUOTE } else { b })
}

/// Every double quote of `v` turned into a single quote (the encode side of the wire).
pub open spec fn sanitize_spec(v: Seq<u8>) -> Seq<u8> {
    v.map_values(|b: u8| if b == DOUBLE_QUOTE { SINGLE_QUOTE } else { b })
}

/// Free text on the wire: sanitized, between single quotes.
pub open spec fn quoted_spec(v: Seq<u8>) -> Seq<u8> {
    seq![SINGLE_QUOTE] + sanitize_spec(v) + seq![SINGLE_QUOTE]
}

/// Whether `v` holds the byte `b`.
pub open spec fn contains(v: Seq<u8>, b: u8) -> bool {
    exists|i: int| 0 <= i < v.len() && v[i] == b
}

/// Sanitizing leaves no double quote.
pub proof fn lemma_sanitized_has_no_double_quote(v: Seq<u8>)
    ensures
        !contains(sanitize_spec(v), DOUBLE_QUOTE),
        !contains(quoted_spec(v), DOUBLE_QUOTE),
{
    let q = quoted_spec(v);
    assert forall|i: int| 0 <= i < q.len() implies q[i] != DOUBLE_QUOTE by {
        if 0 < i < q.len() - 1 {
            assert(q[i] == sanitize_spec(v)[i - 1]);
        }
    }
}

/// The quote substitutions undo each other: a value without single quotes comes back
/// unchanged from sanitizing then restoring, and a wire value without double quotes
/// comes back unchanged from restoring then sanitizing.
pub proof fn lemma_quote_round_trip(v: Seq<u8>, w: Seq<u8>)
    ensures
        !contains(v, SINGLE_QUOTE) ==> restore_spec(sanitize_spec(v)) == v,
        !contains(w, DOUBLE_QUOTE) ==> sanitize_spec(restore_spec(w)) == w,
{
    if !contains(v, SINGLE_QUOTE) {
        assert(restore_spec(sanitize_spec(v)) =~= v);
    }
    if !contains(w, DOUBLE_QUOTE) {
        assert(sanitize_spec(restore_spec(w)) =~= w);
    }
}

/// The decimal digits of `n`.
pub open spec fn digits(n: nat) -> Seq<u8>
    decreases n,
{
    if n < 10 {
        seq![(48 + n) as u8]
    } else {
        digits(n / 10).push((48 + n % 10) as u8)
    }
}

/// `n` written in decimal, with a leading `-` when negative.
pub open spec fn decimal(n: int) -> Seq<u8> {
    if n < 0 {
        seq![45u8] + digits((-n) as nat)
    } else {
        digits(n as nat)
    }
}

/// Whether a request reads or writes its attribute.
#[derive(PartialEq, Eq, Structural, Clone, Copy, Debug)]
pub enum AccessRequest {
    Read,
    Write,
}

/// A decoded request.
pub struct Request {
    pub req: AccessRequest,
    pub attribute: Vec<u8>,
    pub value: Vec<u8>,
}

impl Request {
    /// Turns every single quote of `value` back into the double quote it stands for.
    pub fn restore_value(&mut self)
        ensures
            final(self).value@ == restore_spec(old(self).value@),
            final(self).req == old(self).req,
            final(self).attribute@ == old(self).attribute@,
    {
        let mut new_value: Vec<u8> = Vec::new();
        let mut i: usize = 0;
        while i < self.value.len()
            invariant
                i <= self.value.len(),
                new_value@ =~= restore_spec(self.value@.take(i as int)),
            decreases self.value.len() - i,
        {
            let b = self.value[i];
            new_value.push(if b == SINGLE_QUOTE { DOUBLE_QUOTE } else { b });
            assert(self.value@.take(i + 1) =~= self.value@.take(i as int).push(b));
            i = i + 1;
        }
        assert(self.value@.take(i as int) =~= self.value@);
        self.value = new_value;
    }
}

/// The contents of a reply.
pub struct ResponseView {
    pub code: i32,
    pub attribute: Seq<u8>,
    pub value: Seq<u8>,
}

/// A successful reply: code 200, `value` sanitized.
pub open spec fn success_spec(attribute: Seq<u8>, value: Seq<u8>) -> ResponseView {
    ResponseView { code: 200, attribute, value: sanitize_spec(value) }
}

/// An error reply: code 400, `message` as free text.
pub open spec fn error_spec(attribute: Seq<u8>, message: Seq<u8>) -> ResponseView {
    ResponseView { code: 400, attribute, value: quoted_spec(message) }
}

/// A reply with any code, no attribute, and `message` as free text.
pub open spec fn custom_spec(code: i32, message: Seq<u8>) -> ResponseView {
    ResponseView { code, attribute: Seq::empty(), value: quoted_spec(message) }
}

/// The bytes of a reply on the wire: its JSON object, then the delimiter.
pub open spec fn encoding(r: ResponseView) -> Seq<u8> {
    CODE_PREFIX.spec_bytes() + decimal(r.code as int) + ATTRIBUTE_PREFIX.spec_bytes() + r.attribute
        + VALUE_PREFIX.spec_bytes() + r.value + REPLY_SUFFIX.spec_bytes() + seq![10u8]
}

/// A reply; built only through `success`, `error` and `custom`.
pub struct Response {
    code: i32,
    attribute: Vec<u8>,
    value: Vec<u8>,
}

impl View for Response {
    type V = ResponseView;

    closed spec fn view(&self) -> ResponseView {
        ResponseView { code: self.code, attribute: self.attribute@, value: self.value@ }
    }
}

fn copy_bytes(b: &[u8]) -> (r: Vec<u8>)
    ensures
        r@ == b@,
{
    let mut r: Vec<u8> = Vec::new();
    append(&mut r, b);
    assert(r@ =~= b@);
    r
}

fn append(out: &mut Vec<u8>, b: &[u8])
    ensures
        final(out)@ == old(out)@ + b@,
{
    let ghost start = out@;
    let mut i: usize = 0;
    while i < b.len()
        invariant
            i <= b.len(),
            out@ =~= start + b@.take(i as int),
        decreases b.len() - i,
    {
        out.push(b[i]);
        assert(b@.take(i + 1) =~= b@.take(i as int).push(b[i as int]));
        i = i + 1;
    }
    assert(b@.take(i as int) =~= b@);
}

fn push_digits(out: &mut Vec<u8>, n: u32)
    ensures
        final(out)@ == old(out)@ + digits(n as nat),
    decreases n,
{
    if n >= 10 {
        push_digits(out, n / 10);
    }
    out.push(48 + (n % 10) as u8);
    assert(out@ =~= old(out)@ + digits(n as nat));
}

impl Response {
    /// Turns every double quote of `value` into a single quote.
    fn sanitize_value(&mut self)
        ensures
            final(self)@ == (ResponseView { value: sanitize_spec(old(self)@.value), ..old(self)@ }),
    {
        let mut new_value: Vec<u8> = Vec::new();
        let mut i: usize = 0;
        while i < self.value.len()
            invariant
                i <= self.value.len(),
                new_value@ =~= sanitize_spec(self.value@.take(i as int)),
            decreases self.value.len() - i,
        {
            let b = self.value[i];
            new_value.push(if b == DOUBLE_QUOTE { SINGLE_QUOTE } else { b });
            assert(self.value@.take(i + 1) =~= self.value@.take(i as int).push(b));
            i = i + 1;
        }
        assert(self.value@.take(i as int) =~= self.value@);
        self.value = new_value;
    }

    /// Sanitizes `value` and wraps it in single quotes.
    fn wrap_and_sanitize_value(&mut self)
        ensures
            final(self)@ == (ResponseView { value: quoted_spec(old(self)@.value), ..old(self)@ }),
    {
        self.sanitize_value();
        let mut new_value: Vec<u8> = Vec::new();
        new_value.push(SINGLE_QUOTE);
        append(&mut new_value, self.value.as_slice());
        new_value.push(SINGLE_QUOTE);
        self.value = new_value;
        assert(self.value@ =~= quoted_spec(old(self)@.value));
    }

    /// A successful reply for `attribute`, carrying `value` with its double quotes
    /// turned into single quotes.
    pub fn success(attribute: &[u8], value: &[u8]) -> (r: Response)
        ensures
            r@ == success_spec(attribute@, value@),
    {
        let mut res = Response { code: 200, attribute: copy_bytes(attribute), value: copy_bytes(value) };
        res.sanitize_value();
        res
    }

    /// An error reply (code 400) for `attribute`, carrying `message` as free text.
    pub fn error(attribute: &[u8], message: &[u8]) -> (r: Response)
        ensures
            r@ == error_spec(attribute@, message@),
    {
        let mut res = Response { code: 400, attribute: copy_bytes(attribute), value: copy_bytes(message) };
        res.wrap_and_sanitize_value();
        res
    }

    /// A reply with status `code` and no attribute, carrying `message` as free text.
    pub fn custom(code: i32, message: &[u8]) -> (r: Response)
        ensures
            r@ == custom_spec(code, message@),
    {
        let mut res = Response { code, attribute: Vec::new(), value: copy_bytes(message) };
        res.wrap_and_sanitize_value();
        res
    }

    /// The status code.
    pub fn code(&self) -> (r: i32)
        ensures
            r == self@.code,
    {
        self.code
    }

    /// The attribute name.
    pub fn attribute(&self) -> (r: &[u8])
        ensures
            r@ == self@.attribute,
    {
        self.attribute.as_slice()
    }

    /// The value as it goes on the wire.
    pub fn value(&self) -> (r: &[u8])
        ensures
            r@ == self@.value,
    {
        self.value.as_slice()
    }

    /// The reply's bytes on the wire, or `None` where they would exceed
    /// `RESPONSE_CAPACITY`.
    pub fn encode(&self) -> (r: Option<Vec<u8>>)
        ensures
            r is Some <==> encoding(self@).len() <= RESPONSE_CAPACITY,
            r matches Some(v) ==> v@ == encoding(self@),
    {
        let mut out: Vec<u8> = Vec::new();
        append(&mut out, CODE_PREFIX.as_bytes());
        if self.code < 0 {
            out.push(45);
            let n: u32 = (-(self.code as i64)) as u32;
            push_digits(&mut out, n);
        } else {
            push_digits(&mut out, self.code as u32);
        }
        append(&mut out, ATTRIBUTE_PREFIX.as_bytes());
        append(&mut out, self.attribute.as_slice());
        append(&mut out, VALUE_PREFIX.as_bytes());
        append(&mut out, self.value.as_slice());
        append(&mut out, REPLY_SUFFIX.as_bytes());
        out.push(10);
        assert(out@ =~= encoding(self@));
        if out.len() <= RESPONSE_CAPACITY {
            Some(out)
        } else {
            None
        }
    }
}

} // verus!
