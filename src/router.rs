use vstd::prelude::*;
use vstd::string::StringSliceAdditionalSpecFns;
use crate::codec::{AccessRequest, Request, Response, ResponseView, error_spec, success_spec};

verus! {

/// Reply text for a name with no getter (on read) or no setter (on write).
pub const UNKNOWN_ATTRIBUTE: &'static str = "Unknown attribute";

/// Reply text for a getter that failed.
pub const READ_FAILED: &'static str = "Failed to read attribute";

/// Reply text for a value that does not fit the wire.
pub const ENCODE_FAILED: &'static str = "Failed to encode attribute value";

/// Reply text for a request value that is not of the setter's type.
pub const DECODE_FAILED: &'static str = "Failed to decode value";

/// Reply text for a setter that failed.
pub const SET_FAILED: &'static str = "Failed to set attribute";

/// Which halves of an attribute are registered.
#[derive(PartialEq, Eq, Structural, Clone, Copy, Debug)]
pub enum Access {
    ReadOnly,
    WriteOnly,
    ReadWrite,
}

/// Whether `a` has a getter.
pub open spec fn readable(a: Access) -> bool {
    a != Access::WriteOnly
}

/// Whether `a` has a setter.
pub open spec fn writable(a: Access) -> bool {
    a != Access::ReadOnly
}

/// The registrations, in order: each name with its access.
pub type RegistryView = Seq<(Seq<u8>, Access)>;

/// No name is registered twice.
pub open spec fn registry_wf(reg: RegistryView) -> bool {
    forall|i: int, j: int| 0 <= i < j < reg.len() ==> reg[i].0 != reg[j].0
}

/// Whether `name` is registered.
pub open spec fn is_registered(reg: RegistryView, name: Seq<u8>) -> bool {
    exists|i: int| 0 <= i < reg.len() && reg[i].0 == name
}

/// Whether `name` is registered with a getter.
pub open spec fn has_getter(reg: RegistryView, name: Seq<u8>) -> bool {
    exists|i: int| 0 <= i < reg.len() && reg[i].0 == name && readable(reg[i].1)
}

/// Whether `name` is registered with a setter.
pub open spec fn has_setter(reg: RegistryView, name: Seq<u8>) -> bool {
    exists|i: int| 0 <= i < reg.len() && reg[i].0 == name && writable(reg[i].1)
}

/// The reply for a request whose attribute lacks the half it asks for.
pub open spec fn unknown_reply(name: Seq<u8>) -> ResponseView {
    error_spec(name, UNKNOWN_ATTRIBUTE.spec_bytes())
}

/// What the router does with a request before any getter or setter runs: `Some` reply
/// where the attribute lacks the half asked for, `None` where the handler is to be called.
pub open spec fn dispatch_spec(reg: RegistryView, op: AccessRequest, name: Seq<u8>) -> Option<
    ResponseView,
> {
    match op {
        AccessRequest::Read => if has_getter(reg, name) {
            None
        } else {
            Some(unknown_reply(name))
        },
        AccessRequest::Write => if has_setter(reg, name) {
            None
        } else {
            Some(unknown_reply(name))
        },
    }
}

/// Reading an attribute registered with a setter only gives the same reply as reading
/// a name that is not registered at all.
pub proof fn lemma_setter_only_reads_as_unknown(
    reg: RegistryView,
    name: Seq<u8>,
    absent: Seq<u8>,
)
    requires
        registry_wf(reg),
        exists|i: int| 0 <= i < reg.len() && reg[i] == (name, Access::WriteOnly),
        !is_registered(reg, absent),
    ensures
        dispatch_spec(reg, AccessRequest::Read, name) == Some(unknown_reply(name)),
        dispatch_spec(reg, AccessRequest::Read, absent) == Some(unknown_reply(absent)),
{
    let i = choose|i: int| 0 <= i < reg.len() && reg[i] == (name, Access::WriteOnly);
    assert forall|j: int| 0 <= j < reg.len() && reg[j].0 == name implies !readable(reg[j].1) by {
        if j != i {
            if j < i {
                assert(reg[j].0 != reg[i].0);
            } else {
                assert(reg[i].0 != reg[j].0);
            }
        }
    }
}

/// What the getter of a registered attribute came to.
pub enum ReadOutcome {
    /// The getter failed.
    GetFailed,
    /// The getter's value could not be serialized within the wire's bounds.
    EncodeFailed,
    /// The getter's value, serialized.
    Encoded(Vec<u8>),
}

/// What decoding the value and calling the setter of a registered attribute came to.
pub enum WriteOutcome {
    /// The request's value is not of the setter's type.
    DecodeFailed,
    /// The setter failed.
    SetFailed,
    /// The setter took the value.
    Done,
}

/// The reply to a read of a registered attribute.
pub open spec fn read_reply_spec(name: Seq<u8>, outcome: ReadOutcome) -> ResponseView {
    match outcome {
        ReadOutcome::GetFailed => error_spec(name, READ_FAILED.spec_bytes()),
        ReadOutcome::EncodeFailed => error_spec(name, ENCODE_FAILED.spec_bytes()),
        ReadOutcome::Encoded(v) => success_spec(name, v@),
    }
}

/// The reply to a write of a registered attribute: the raw request value is echoed back
/// on success.
pub open spec fn write_reply_spec(name: Seq<u8>, value: Seq<u8>, outcome: WriteOutcome) -> ResponseView {
    match outcome {
        WriteOutcome::DecodeFailed => error_spec(name, DECODE_FAILED.spec_bytes()),
        WriteOutcome::SetFailed => error_spec(name, SET_FAILED.spec_bytes()),
        WriteOutcome::Done => success_spec(name, value),
    }
}

/// What a request calls for.
pub enum Dispatch {
    /// This reply, with no handler called.
    Reply(Response),
    /// Call the attribute's getter, then `read_reply`.
    CallGetter,
    /// Decode the value, call the attribute's setter, then `write_reply`.
    CallSetter,
}

/// The reply to a read of a registered attribute, given what its getter came to.
pub fn read_reply(attribute: &[u8], outcome: &ReadOutcome) -> (r: Response)
    ensures
        r@ == read_reply_spec(attribute@, *outcome),
{
    match outcome {
        ReadOutcome::GetFailed => Response::error(attribute, READ_FAILED.as_bytes()),
        ReadOutcome::EncodeFailed => Response::error(attribute, ENCODE_FAILED.as_bytes()),
        ReadOutcome::Encoded(v) => Response::success(attribute, v.as_slice()),
    }
}

/// The reply to a write of a registered attribute, given what decoding `value` and
/// calling the setter came to.
pub fn write_reply(attribute: &[u8], value: &[u8], outcome: WriteOutcome) -> (r: Response)
    ensures
        r@ == write_reply_spec(attribute@, value@, outcome),
{
    match outcome {
        WriteOutcome::DecodeFailed => Response::error(attribute, DECODE_FAILED.as_bytes()),
        WriteOutcome::SetFailed => Response::error(attribute, SET_FAILED.as_bytes()),
        WriteOutcome::Done => Response::success(attribute, value),
    }
}

/// One registered attribute.
pub struct Registration {
    pub name: Vec<u8>,
    pub access: Access,
}

/// The attributes known to the server, each name at most once.
pub struct Registry {
    entries: Vec<Registration>,
}

impl View for Registry {
    type V = RegistryView;

    closed spec fn view(&self) -> RegistryView {
        self.entries@.map_values(|e: Registration| (e.name@, e.access))
    }
}

fn bytes_equal(a: &[u8], b: &[u8]) -> (r: bool)
    ensures
        r == (a@ == b@),
{
    if a.len() != b.len() {
        return false;
    }
    let mut i: usize = 0;
    while i < a.len()
        invariant
            a.len() == b.len(),
            i <= a.len(),
            a@.take(i as int) == b@.take(i as int),
        decreases a.len() - i,
    {
        if a[i] != b[i] {
            return false;
        }
        assert(a@.take(i + 1) =~= a@.take(i as int).push(a[i as int]));
        assert(b@.take(i + 1) =~= b@.take(i as int).push(b[i as int]));
        i = i + 1;
    }
    assert(a@.take(i as int) =~= a@);
    assert(b@.take(i as int) =~= b@);
    true
}

impl Registry {
    /// The registry's invariant.
    pub open spec fn wf(&self) -> bool {
        registry_wf(self@)
    }

    /// A registry with no attributes.
    pub fn new() -> (r: Registry)
        ensures
            r@ == Seq::<(Seq<u8>, Access)>::empty(),
            r.wf(),
    {
        let r = Registry { entries: Vec::new() };
        assert(r@ =~= Seq::<(Seq<u8>, Access)>::empty());
        r
    }

    /// The access registered for `name`, if any.
    pub fn lookup(&self, name: &[u8]) -> (r: Option<Access>)
        requires
            self.wf(),
        ensures
            r is None <==> !is_registered(self@, name@),
            r matches Some(a) ==> exists|i: int|
                0 <= i < self@.len() && #[trigger] self@[i] == (name@, a),
    {
        let mut i: usize = 0;
        while i < self.entries.len()
            invariant
                i <= self.entries.len(),
                forall|j: int| 0 <= j < i ==> self@[j].0 != name@,
            decreases self.entries.len() - i,
        {
            if bytes_equal(self.entries[i].name.as_slice(), name) {
                assert(self@[i as int] == (name@, self.entries[i as int].access));
                return Some(self.entries[i].access);
            }
            i = i + 1;
        }
        None
    }

    /// Adds `name` with `access`; refused, leaving the registry as it was, where `name`
    /// is already registered.
    pub fn register(&mut self, name: &[u8], access: Access) -> (r: bool)
        requires
            old(self).wf(),
        ensures
            r == !is_registered(old(self)@, name@),
            r ==> final(self)@ == old(self)@.push((name@, access)),
            !r ==> final(self)@ == old(self)@,
            final(self).wf(),
    {
        if self.lookup(name).is_some() {
            return false;
        }
        let mut copy: Vec<u8> = Vec::new();
        let mut i: usize = 0;
        while i < name.len()
            invariant
                i <= name.len(),
                copy@ =~= name@.take(i as int),
            decreases name.len() - i,
        {
            copy.push(name[i]);
            assert(name@.take(i + 1) =~= name@.take(i as int).push(name[i as int]));
            i = i + 1;
        }
        assert(name@.take(i as int) =~= name@);
        let ghost before = self@;
        self.entries.push(Registration { name: copy, access });
        assert(self@ =~= before.push((name@, access)));
        true
    }

    /// What `request` calls for: the unknown-attribute reply where its attribute has no
    /// getter (on read) or no setter (on write), else the handler to call.
    pub fn dispatch(&self, request: &Request) -> (r: Dispatch)
        requires
            self.wf(),
        ensures
            dispatch_spec(self@, request.req, request.attribute@) matches Some(reply) ==> (r
                matches Dispatch::Reply(resp) && resp@ == reply),
            dispatch_spec(self@, request.req, request.attribute@) is None ==> (match request.req {
                AccessRequest::Read => r is CallGetter,
                AccessRequest::Write => r is CallSetter,
            }),
    {
        let found = self.lookup(request.attribute.as_slice());
        let unknown = Dispatch::Reply(
            Response::error(request.attribute.as_slice(), UNKNOWN_ATTRIBUTE.as_bytes()),
        );
        match request.req {
            AccessRequest::Read => match found {
                Some(Access::ReadOnly) | Some(Access::ReadWrite) => Dispatch::CallGetter,
                _ => {
                    proof {
                        self.lemma_unique(request.attribute@);
                    }
                    unknown
                },
            },
            AccessRequest::Write => match found {
                Some(Access::WriteOnly) | Some(Access::ReadWrite) => Dispatch::CallSetter,
                _ => {
                    proof {
                        self.lemma_unique(request.attribute@);
                    }
                    unknown
                },
            },
        }
    }

    proof fn lemma_unique(&self, name: Seq<u8>)
        requires
            self.wf(),
        ensures
            forall|i: int, j: int|
                0 <= i < self@.len() && 0 <= j < self@.len() && self@[i].0 == name && self@[j].0
                    == name ==> i == j,
    {
        assert forall|i: int, j: int|
            0 <= i < self@.len() && 0 <= j < self@.len() && self@[i].0 == name && self@[j].0
                == name implies i == j by {
            if i < j {
                assert(self@[i].0 != self@[j].0);
            } else if j < i {
                assert(self@[j].0 != self@[i].0);
            }
        }
    }
}

} // verus!
