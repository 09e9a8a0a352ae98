//! The decisions of registering a service with Avahi over D-Bus.
use vstd::prelude::*;

use crate::register::{
    entry_view, txt_entry_bytes, txt_entry_to_bytes, InterfaceIndex, RegistrationRequest,
    ServiceRegistrationError, TxtRecordValue,
};

verus! {

pub const AVAHI_IF_UNSPEC: i32 = -1;
pub const AVAHI_PROTO_UNSPEC: i32 = -1;

pub const AVAHI_ENTRY_GROUP_UNCOMMITTED: i32 = 0;
pub const AVAHI_ENTRY_GROUP_REGISTERING: i32 = 1;
pub const AVAHI_ENTRY_GROUP_ESTABLISHED: i32 = 2;
pub const AVAHI_ENTRY_GROUP_COLLISION: i32 = 3;
pub const AVAHI_ENTRY_GROUP_FAILURE: i32 = 4;

/// The TXT strings that Avahi's `AddService` takes, one per entry, in order.
pub fn avahi_txt_entries(records: &[(String, TxtRecordValue)]) -> (res: Vec<Vec<u8>>)
    ensures
        res@.len() == records@.len(),
        forall|i: int| 0 <= i < records@.len() ==> (#[trigger] res@[i])@ == txt_entry_bytes(entry_view(records@[i])),
{
    let mut res: Vec<Vec<u8>> = Vec::new();
    let n = records.len();
    let mut i: usize = 0;
    while i < n
        invariant
            n == records@.len(),
            i <= n,
            res@.len() == i,
            forall|j: int| 0 <= j < i ==> (#[trigger] res@[j])@ == txt_entry_bytes(entry_view(records@[j])),
        decreases n - i,
    {
        let (key, value) = &records[i];
        res.push(txt_entry_to_bytes(key, value));
        i = i + 1;
    }
    res
}

/// The interface argument of `AddService`: unspecified when no index was given, else the
/// index, which must fit an `i32`.
pub open spec fn avahi_interface_result(index: Option<InterfaceIndex>, res: Result<i32, ServiceRegistrationError>) -> bool {
    match index {
        None => res == Ok::<i32, ServiceRegistrationError>(AVAHI_IF_UNSPEC),
        Some(i) => if i.spec_get() > i32::MAX {
            res matches Err(ServiceRegistrationError::InvalidInterfaceIndex(v)) && v == i.spec_get()
        } else {
            res == Ok::<i32, ServiceRegistrationError>(i.spec_get() as i32)
        },
    }
}

/// The interface argument of `AddService` for `index`.
pub fn avahi_interface(index: Option<InterfaceIndex>) -> (res: Result<i32, ServiceRegistrationError>)
    ensures
        avahi_interface_result(index, res),
{
    match index {
        Some(i) => {
            let idx = i.get();
            if idx > i32::MAX as u32 {
                return Err(ServiceRegistrationError::InvalidInterfaceIndex(idx));
            }
            Ok(idx as i32)
        },
        None => Ok(AVAHI_IF_UNSPEC),
    }
}

/// The arguments of Avahi's `AddService` that the request determines. Where no name was
/// given, the caller asks Avahi for the host name.
pub struct AvahiService<'a> {
    pub interface: i32,
    pub protocol: i32,
    pub flags: u32,
    pub name: Option<&'a str>,
    pub service_type: &'a str,
    pub domain: &'a str,
    pub host: &'a str,
    pub port: u16,
    pub txt: Vec<Vec<u8>>,
}

fn str_or_empty<'a>(o: Option<&'a str>) -> (res: &'a str)
    ensures
        res@ == match o {
            Some(s) => s@,
            None => Seq::empty(),
        },
{
    match o {
        Some(s) => s,
        None => {
            proof {
                reveal_strlit("");
            }
            ""
        },
    }
}

/// The `AddService` arguments for `req`: unspecified protocol, no flags, empty domain and
/// host where none was given; fails only when the interface index does not fit an `i32`.
pub fn avahi_service<'a>(req: &RegistrationRequest<'a>) -> (res: Result<AvahiService<'a>, ServiceRegistrationError>)
    ensures
        match res {
            Ok(s) => {
                &&& avahi_interface_result(req.interface_index, Ok(s.interface))
                &&& s.protocol == AVAHI_PROTO_UNSPEC
                &&& s.flags == 0
                &&& s.name == req.name
                &&& s.service_type == req.service_type
                &&& s.domain@ == match req.domain { Some(d) => d@, None => Seq::empty() }
                &&& s.host@ == match req.host { Some(h) => h@, None => Seq::empty() }
                &&& s.port == req.port
                &&& s.txt@.len() == req.txt_record@.len()
                &&& forall|i: int| 0 <= i < req.txt_record@.len()
                    ==> (#[trigger] s.txt@[i])@ == txt_entry_bytes(entry_view(req.txt_record@[i]))
            },
            Err(e) => avahi_interface_result(req.interface_index, Err(e)),
        },
{
    let interface = avahi_interface(req.interface_index)?;
    Ok(AvahiService {
        interface,
        protocol: AVAHI_PROTO_UNSPEC,
        flags: 0,
        name: req.name,
        service_type: req.service_type,
        domain: str_or_empty(req.domain),
        host: str_or_empty(req.host),
        port: req.port,
        txt: avahi_txt_entries(req.txt_record),
    })
}

/// The values are those of Avahi's D-Bus API: `AVAHI_IF_UNSPEC` and `AVAHI_PROTO_UNSPEC`
/// are -1, and the entry group states run from uncommitted (0) through registering,
/// established and collision to failure (4).
pub proof fn lemma_avahi_api_values()
    ensures
        AVAHI_IF_UNSPEC == -1 && AVAHI_PROTO_UNSPEC == -1,
        AVAHI_ENTRY_GROUP_UNCOMMITTED == 0 && AVAHI_ENTRY_GROUP_REGISTERING == 1,
        AVAHI_ENTRY_GROUP_ESTABLISHED == 2 && AVAHI_ENTRY_GROUP_COLLISION == 3,
        AVAHI_ENTRY_GROUP_FAILURE == 4,
{
}

/// What to do after learning the state of the entry group.
pub enum AvahiStep {
    /// The service is registered.
    Registered,
    /// Wait for the next state change.
    AwaitStateChange,
    /// Registration failed with this error.
    Fail(ServiceRegistrationError),
}

/// What the state read right after committing the entry group means.
pub fn avahi_committed_step(state: i32) -> (res: AvahiStep)
    ensures
        state == AVAHI_ENTRY_GROUP_ESTABLISHED ==> res is Registered,
        state == AVAHI_ENTRY_GROUP_COLLISION ==> res matches AvahiStep::Fail(
            ServiceRegistrationError::NameConflict,
        ),
        state == AVAHI_ENTRY_GROUP_FAILURE ==> (res matches AvahiStep::Fail(
            ServiceRegistrationError::RegistrationFailed(m),
        ) && m@ == "entry group entered failure state"@),
        state != AVAHI_ENTRY_GROUP_ESTABLISHED && state != AVAHI_ENTRY_GROUP_COLLISION && state
            != AVAHI_ENTRY_GROUP_FAILURE ==> res is AwaitStateChange,
{
    if state == AVAHI_ENTRY_GROUP_ESTABLISHED {
        AvahiStep::Registered
    } else if state == AVAHI_ENTRY_GROUP_COLLISION {
        AvahiStep::Fail(ServiceRegistrationError::NameConflict)
    } else if state == AVAHI_ENTRY_GROUP_FAILURE {
        AvahiStep::Fail(
            ServiceRegistrationError::RegistrationFailed("entry group entered failure state".to_owned()),
        )
    } else {
        AvahiStep::AwaitStateChange
    }
}

/// What a `StateChanged` signal with `state` and `error` means while waiting.
pub fn avahi_state_changed_step(state: i32, error: &str) -> (res: AvahiStep)
    ensures
        state == AVAHI_ENTRY_GROUP_REGISTERING ==> res is AwaitStateChange,
        state == AVAHI_ENTRY_GROUP_ESTABLISHED ==> res is Registered,
        state == AVAHI_ENTRY_GROUP_COLLISION ==> res matches AvahiStep::Fail(
            ServiceRegistrationError::NameConflict,
        ),
        state == AVAHI_ENTRY_GROUP_FAILURE ==> (res matches AvahiStep::Fail(
            ServiceRegistrationError::RegistrationFailed(m),
        ) && m@ == "entry group failure: "@ + error@),
        state != AVAHI_ENTRY_GROUP_REGISTERING && state != AVAHI_ENTRY_GROUP_ESTABLISHED && state
            != AVAHI_ENTRY_GROUP_COLLISION && state != AVAHI_ENTRY_GROUP_FAILURE ==> res is Registered,
{
    if state == AVAHI_ENTRY_GROUP_REGISTERING {
        AvahiStep::AwaitStateChange
    } else if state == AVAHI_ENTRY_GROUP_COLLISION {
        AvahiStep::Fail(ServiceRegistrationError::NameConflict)
    } else if state == AVAHI_ENTRY_GROUP_FAILURE {
        let mut m = "entry group failure: ".to_owned();
        m.append(error);
        AvahiStep::Fail(ServiceRegistrationError::RegistrationFailed(m))
    } else {
        // an established group, or an unknown state: stop waiting
        AvahiStep::Registered
    }
}

} // verus!
