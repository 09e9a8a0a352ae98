//! The decisions of registering a service with the macOS DNS-SD framework.
use vstd::prelude::*;
use vstd::utf8::encode_utf8;

use crate::register::{
    entry_view, entries_view, interface_number_or_all, opt_str_view, txt_entry_bytes, txt_entry_to_bytes,
    txt_entries_valid, txt_entry_fault, RegistrationRequest, ServiceRegistrationError, TxtEntry,
    TxtRecordValue, TxtValue,
};
use crate::text::{decimal, with_decimal};

verus! {

/// `kDNSServiceErr_NoError`.
pub const NO_ERROR: i32 = 0;
/// `kDNSServiceErr_NameConflict`.
pub const NAME_CONFLICT: i32 = -65548;

/// `p` is the position of the first zero byte of `b`.
pub open spec fn first_zero_at(b: Seq<u8>, p: int) -> bool {
    &&& 0 <= p < b.len()
    &&& b[p] == 0
    &&& forall|j: int| 0 <= j < p ==> b[j] != 0
}

/// `b` has no zero byte.
pub open spec fn zero_free(b: Seq<u8>) -> bool {
    forall|j: int| 0 <= j < b.len() ==> b[j] != 0
}

/// The position of the first zero byte of `bytes`, if there is one.
pub fn nul_position(bytes: &[u8]) -> (res: Option<usize>)
    ensures
        match res {
            None => zero_free(bytes@),
            Some(p) => first_zero_at(bytes@, p as int),
        },
{
    let n = bytes.len();
    let mut i: usize = 0;
    while i < n
        invariant
            n == bytes@.len(),
            i <= n,
            forall|j: int| 0 <= j < i ==> bytes@[j] != 0,
        decreases n - i,
    {
        if bytes[i] == 0 {
            return Some(i);
        }
        i = i + 1;
    }
    None
}

/// The outcome of turning the text `s` into a C string: `Ok` when its bytes hold no
/// zero, else the error that names `s` and the position of its first zero byte.
pub open spec fn c_string_result(s: Seq<char>, res: Result<(), ServiceRegistrationError>) -> bool {
    if zero_free(encode_utf8(s)) {
        res is Ok
    } else {
        res matches Err(ServiceRegistrationError::ParameterContainsInteriorNulByte(p, pos))
            && p@ == s && first_zero_at(encode_utf8(s), pos as int)
    }
}

/// Checks that `param` can be handed to the DNS-SD framework as a C string.
pub fn check_c_string(param: &str) -> (res: Result<(), ServiceRegistrationError>)
    ensures
        c_string_result(param@, res),
{
    match nul_position(param.as_bytes()) {
        None => Ok(()),
        Some(pos) => Err(ServiceRegistrationError::ParameterContainsInteriorNulByte(param.to_owned(), pos)),
    }
}

fn check_opt_c_string(param: Option<&str>) -> (res: Result<(), ServiceRegistrationError>)
    ensures
        match param {
            None => res is Ok,
            Some(p) => c_string_result(p@, res),
        },
{
    match param {
        None => Ok(()),
        Some(p) => check_c_string(p),
    }
}

/// The optional text has no zero byte in its UTF-8 encoding.
pub open spec fn opt_zero_free(o: Option<&str>) -> bool {
    match o {
        None => true,
        Some(s) => zero_free(encode_utf8(s@)),
    }
}

/// The outcome of checking the request's strings in the order in which they are turned
/// into C strings: service type, name, domain, host.
pub open spec fn c_strings_result(req: RegistrationRequest, res: Result<(), ServiceRegistrationError>) -> bool {
    if !zero_free(encode_utf8(req.service_type@)) {
        c_string_result(req.service_type@, res)
    } else if !opt_zero_free(req.name) {
        c_string_result(req.name->Some_0@, res)
    } else if !opt_zero_free(req.domain) {
        c_string_result(req.domain->Some_0@, res)
    } else if !opt_zero_free(req.host) {
        c_string_result(req.host->Some_0@, res)
    } else {
        res is Ok
    }
}

/// The request's strings in the order in which they become C strings.
pub open spec fn c_string_params(req: RegistrationRequest) -> Seq<Option<Seq<char>>> {
    seq![Some(req.service_type@), opt_str_view(req.name), opt_str_view(req.domain), opt_str_view(req.host)]
}

/// The optional string, when given, has no zero byte in its UTF-8 encoding.
pub open spec fn param_zero_free(o: Option<Seq<char>>) -> bool {
    match o {
        None => true,
        Some(t) => zero_free(encode_utf8(t)),
    }
}

/// The strings can all become C strings exactly when none given holds a zero byte;
/// otherwise the error names the first of service type, name, domain and host that holds
/// one, with the position of its first zero byte.
pub proof fn lemma_c_strings_order(req: RegistrationRequest, res: Result<(), ServiceRegistrationError>)
    requires
        c_strings_result(req, res),
    ensures
        res is Ok <==> forall|i: int| 0 <= i < 4 ==> param_zero_free(#[trigger] c_string_params(req)[i]),
        res matches Err(e) ==> exists|i: int| #![trigger c_string_params(req)[i]] {
            &&& 0 <= i < 4
            &&& !param_zero_free(c_string_params(req)[i])
            &&& forall|k: int| 0 <= k < i ==> param_zero_free(#[trigger] c_string_params(req)[k])
            &&& e matches ServiceRegistrationError::ParameterContainsInteriorNulByte(p, pos)
            &&& c_string_params(req)[i] == Some(p@)
            &&& 0 <= pos < encode_utf8(p@).len()
            &&& encode_utf8(p@)[pos as int] == 0
            &&& forall|j: int| 0 <= j < pos ==> encode_utf8(p@)[j] != 0
        },
{
    let ps = c_string_params(req);
    assert(ps[0] == Some(req.service_type@));
    assert(ps[1] == opt_str_view(req.name));
    assert(ps[2] == opt_str_view(req.domain));
    assert(ps[3] == opt_str_view(req.host));
    assert(param_zero_free(ps[0]) == zero_free(encode_utf8(req.service_type@)));
    assert(param_zero_free(ps[1]) == opt_zero_free(req.name));
    assert(param_zero_free(ps[2]) == opt_zero_free(req.domain));
    assert(param_zero_free(ps[3]) == opt_zero_free(req.host));
}

/// Checks that the service type, name, domain and host can be C strings.
pub fn check_c_strings(req: &RegistrationRequest) -> (res: Result<(), ServiceRegistrationError>)
    ensures
        c_strings_result(*req, res),
{
    check_c_string(req.service_type)?;
    check_opt_c_string(req.name)?;
    check_opt_c_string(req.domain)?;
    check_opt_c_string(req.host)?;
    Ok(())
}

/// The length byte before a TXT string: its length, truncated to a byte.
pub open spec fn length_byte(e: TxtEntry) -> u8 {
    (txt_entry_bytes(e).len() % 256) as u8
}

/// The TXT strings of `rs` in the DNS wire format: each preceded by its length byte.
pub open spec fn txt_wire_strings(rs: Seq<TxtEntry>) -> Seq<u8>
    decreases rs.len(),
{
    if rs.len() == 0 {
        Seq::empty()
    } else {
        txt_wire_strings(rs.drop_last()) + seq![length_byte(rs.last())] + txt_entry_bytes(rs.last())
    }
}

/// The TXT record that `DNSServiceRegister` takes: the wire-format strings, or a single
/// empty string when there are no entries.
pub open spec fn txt_wire_record(rs: Seq<TxtEntry>) -> Seq<u8> {
    if rs.len() == 0 {
        seq![0u8]
    } else {
        txt_wire_strings(rs)
    }
}

/// The UTF-8 encoding of every text in the entry fits in memory.
pub open spec fn entry_fits_memory(e: TxtEntry) -> bool {
    &&& encode_utf8(e.0).len() <= usize::MAX
    &&& match e.1 {
        TxtValue::Text(s) => encode_utf8(s).len() <= usize::MAX,
        _ => true,
    }
}

/// Entries that pass validation fit their length byte: each TXT string is at most 255
/// bytes long, and its length byte is its exact length.
pub proof fn lemma_valid_entries_fit_length_byte(rs: Seq<TxtEntry>)
    requires
        txt_entries_valid(rs),
        forall|i: int| 0 <= i < rs.len() ==> entry_fits_memory(#[trigger] rs[i]),
    ensures
        forall|i: int| 0 <= i < rs.len() ==> txt_entry_bytes(#[trigger] rs[i]).len() <= 255
            && length_byte(rs[i]) as int == txt_entry_bytes(rs[i]).len(),
{
    assert forall|i: int| 0 <= i < rs.len() implies txt_entry_bytes(#[trigger] rs[i]).len() <= 255
        && length_byte(rs[i]) as int == txt_entry_bytes(rs[i]).len() by {
        assert(entry_fits_memory(rs[i]));
        assert(txt_entry_fault(rs[i].0, rs[i].1) is None);
    }
}

/// Where the `i`-th TXT string's length byte stands in the wire format: after the
/// length byte and bytes of every earlier string.
pub open spec fn wire_offset(rs: Seq<TxtEntry>, i: int) -> int
    decreases i,
{
    if i <= 0 {
        0
    } else {
        wire_offset(rs, i - 1) + 1 + txt_entry_bytes(rs[i - 1]).len()
    }
}

proof fn lemma_wire_offset_prefix(rs: Seq<TxtEntry>, t: Seq<TxtEntry>, i: int)
    requires
        0 <= i <= t.len() <= rs.len(),
        forall|j: int| 0 <= j < t.len() ==> t[j] == rs[j],
    ensures
        wire_offset(rs, i) == wire_offset(t, i),
        wire_offset(rs, i) >= 0,
    decreases i,
{
    if i > 0 {
        lemma_wire_offset_prefix(rs, t, i - 1);
    }
}

proof fn lemma_wire_offset_monotonic(rs: Seq<TxtEntry>, i: int, k: int)
    requires
        0 <= i <= k,
    ensures
        wire_offset(rs, i) <= wire_offset(rs, k),
    decreases k,
{
    if k > i {
        lemma_wire_offset_monotonic(rs, i, k - 1);
    }
}

/// The wire-format strings are the entries' TXT strings, one after another, each preceded
/// by a byte that holds its length in bytes (truncated to a byte), and nothing else.
#[verifier::spinoff_prover]
#[verifier::rlimit(40)]
pub proof fn lemma_txt_wire_strings_layout(rs: Seq<TxtEntry>)
    ensures
        txt_wire_strings(rs).len() == wire_offset(rs, rs.len() as int),
        forall|i: int| 0 <= i < rs.len() ==> {
            &&& txt_wire_strings(rs)[wire_offset(rs, i)] == (txt_entry_bytes(#[trigger] rs[i]).len() % 256) as u8
            &&& txt_wire_strings(rs).subrange(wire_offset(rs, i) + 1, wire_offset(rs, i + 1)) == txt_entry_bytes(rs[i])
        },
    decreases rs.len(),
{
    if rs.len() > 0 {
        let t = rs.drop_last();
        let n = t.len() as int;
        lemma_txt_wire_strings_layout(t);
        let wt = txt_wire_strings(t);
        let w = txt_wire_strings(rs);
        let last = rs.last();
        assert(w == wt + seq![length_byte(last)] + txt_entry_bytes(last));
        lemma_wire_offset_prefix(rs, t, n);
        assert forall|i: int| 0 <= i < rs.len() implies {
            &&& txt_wire_strings(rs)[wire_offset(rs, i)] == (txt_entry_bytes(#[trigger] rs[i]).len() % 256) as u8
            &&& txt_wire_strings(rs).subrange(wire_offset(rs, i) + 1, wire_offset(rs, i + 1)) == txt_entry_bytes(rs[i])
        } by {
            if i < n {
                lemma_wire_offset_prefix(rs, t, i);
                lemma_wire_offset_prefix(rs, t, i + 1);
                lemma_wire_offset_monotonic(t, i + 1, n);
                assert(rs[i] == t[i]);
                assert(w[wire_offset(rs, i)] == wt[wire_offset(t, i)]);
                assert(w.subrange(wire_offset(rs, i) + 1, wire_offset(rs, i + 1)) =~= wt.subrange(
                    wire_offset(t, i) + 1,
                    wire_offset(t, i + 1),
                ));
            } else {
                assert(rs[i] == last);
                assert(w.subrange(wire_offset(rs, i) + 1, wire_offset(rs, i + 1)) =~= txt_entry_bytes(last));
            }
        }
    }
}

/// The TXT record handed to `DNSServiceRegister`: a single empty string for no entries,
/// else each entry's TXT string preceded by its length byte; for entries that pass
/// validation the length byte is the exact byte length of its string.
pub proof fn lemma_txt_wire_record_layout(rs: Seq<TxtEntry>)
    ensures
        rs.len() == 0 ==> txt_wire_record(rs) == seq![0u8],
        rs.len() > 0 ==> txt_wire_record(rs).len() == wire_offset(rs, rs.len() as int),
        forall|i: int| 0 <= i < rs.len() ==> {
            &&& txt_wire_record(rs)[wire_offset(rs, i)] == (txt_entry_bytes(#[trigger] rs[i]).len() % 256) as u8
            &&& txt_wire_record(rs).subrange(wire_offset(rs, i) + 1, wire_offset(rs, i + 1)) == txt_entry_bytes(rs[i])
        },
        txt_entries_valid(rs) && (forall|i: int| 0 <= i < rs.len() ==> entry_fits_memory(#[trigger] rs[i]))
            ==> forall|i: int| 0 <= i < rs.len() ==> txt_wire_record(rs)[wire_offset(rs, i)] as int
                == txt_entry_bytes(#[trigger] rs[i]).len(),
{
    lemma_txt_wire_strings_layout(rs);
    if txt_entries_valid(rs) && (forall|i: int| 0 <= i < rs.len() ==> entry_fits_memory(#[trigger] rs[i])) {
        lemma_valid_entries_fit_length_byte(rs);
    }
}

/// The TXT record of `records` in the DNS wire format (see [`txt_wire_record`]).
pub fn dnssd_txt_record(records: &[(String, TxtRecordValue)]) -> (res: Vec<u8>)
    ensures
        res@ == txt_wire_record(entries_view(records@)),
{
    let ghost rs = entries_view(records@);
    let mut txt_record: Vec<u8> = Vec::new();
    let n = records.len();
    let mut i: usize = 0;
    assert(rs.take(0) =~= Seq::<TxtEntry>::empty());
    while i < n
        invariant
            n == records@.len(),
            rs == entries_view(records@),
            i <= n,
            txt_record@ == txt_wire_strings(rs.take(i as int)),
        decreases n - i,
    {
        let (key, value) = &records[i];
        let entry = txt_entry_to_bytes(key, value);
        let ghost e = entry_view(records@[i as int]);
        assert(rs[i as int] == e);
        // `entry.len() as u8`, which truncates
        let len_byte = (entry.len() % 256) as u8;
        let ghost before = txt_record@;
        txt_record.push(len_byte);
        txt_record.extend_from_slice(entry.as_slice());
        assert(rs.take(i + 1).drop_last() =~= rs.take(i as int));
        assert(txt_record@ =~= before + seq![length_byte(e)] + txt_entry_bytes(e));
        i = i + 1;
    }
    assert(rs.take(n as int) =~= rs);
    if n == 0 {
        // DNS-SD requires at least one TXT record, so add an empty one if none were provided
        txt_record.push(0);
        assert(txt_record@ =~= seq![0u8]);
    }
    txt_record
}

/// What `DNSServiceRegister` needs besides the request's strings and port.
pub struct DnssdService {
    pub interface: u32,
    pub txt_record: Vec<u8>,
}

/// Checks the request's strings and works out the interface and TXT record arguments.
pub fn dnssd_service(req: &RegistrationRequest) -> (res: Result<DnssdService, ServiceRegistrationError>)
    ensures
        match res {
            Ok(s) => {
                &&& c_strings_result(*req, Ok(()))
                &&& s.interface == match req.interface_index {
                    Some(i) => i.spec_get(),
                    None => 0,
                }
                &&& s.txt_record@ == txt_wire_record(entries_view(req.txt_record@))
            },
            Err(e) => c_strings_result(*req, Err(e)),
        },
{
    check_c_strings(req)?;
    Ok(DnssdService { interface: interface_number_or_all(req.interface_index), txt_record: dnssd_txt_record(req.txt_record) })
}

/// The error codes are those of `dns_sd.h`: `kDNSServiceErr_NoError` is 0 and
/// `kDNSServiceErr_NameConflict` is -65548.
pub proof fn lemma_dnssd_api_values()
    ensures
        NO_ERROR == 0 && NAME_CONFLICT == -65548,
{
}

/// What the error code that `DNSServiceRegister` returned means.
pub fn register_call_result(error: i32) -> (res: Result<(), ServiceRegistrationError>)
    ensures
        error == NO_ERROR ==> res is Ok,
        error == NAME_CONFLICT ==> res matches Err(ServiceRegistrationError::NameConflict),
        error != NO_ERROR && error != NAME_CONFLICT ==> (res matches Err(
            ServiceRegistrationError::RegistrationError(m),
        ) && m@ == "DNSServiceRegister failed with error code: "@ + decimal(error as int)),
{
    if error == NO_ERROR {
        Ok(())
    } else if error == NAME_CONFLICT {
        Err(ServiceRegistrationError::NameConflict)
    } else {
        Err(ServiceRegistrationError::RegistrationError(
            with_decimal("DNSServiceRegister failed with error code: ", error as i64),
        ))
    }
}

/// What the error code that `DNSServiceProcessResult` returned means.
pub fn process_result(error: i32) -> (res: Result<(), ServiceRegistrationError>)
    ensures
        error == NO_ERROR ==> res is Ok,
        error != NO_ERROR ==> (res matches Err(ServiceRegistrationError::RegistrationError(m))
            && m@ == "DNSServiceProcessResult failed with error code: "@ + decimal(error as int)),
{
    if error == NO_ERROR {
        Ok(())
    } else {
        Err(ServiceRegistrationError::RegistrationError(
            with_decimal("DNSServiceProcessResult failed with error code: ", error as i64),
        ))
    }
}

/// What the registration callback reported: `None` when it did not fire.
pub fn callback_result(status: Option<i32>) -> (res: Result<(), ServiceRegistrationError>)
    ensures
        match status {
            None => res matches Err(ServiceRegistrationError::RegistrationError(m))
                && m@ == "DNSServiceRegister callback did not fire"@,
            Some(s) => if s == NO_ERROR {
                res is Ok
            } else if s == NAME_CONFLICT {
                res matches Err(ServiceRegistrationError::NameConflict)
            } else {
                res matches Err(ServiceRegistrationError::RegistrationError(m))
                    && m@ == "DNSServiceRegister callback failed with error code: "@ + decimal(s as int)
            },
        },
{
    match status {
        None => Err(ServiceRegistrationError::RegistrationError(
            "DNSServiceRegister callback did not fire".to_owned(),
        )),
        Some(s) => {
            if s == NO_ERROR {
                Ok(())
            } else if s == NAME_CONFLICT {
                Err(ServiceRegistrationError::NameConflict)
            } else {
                Err(ServiceRegistrationError::RegistrationError(
                    with_decimal("DNSServiceRegister callback failed with error code: ", s as i64),
                ))
            }
        },
    }
}

} // verus!
