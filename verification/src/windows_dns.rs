//! The decisions of registering a service with the Win32 DNS-SD API.
use vstd::prelude::*;
use vstd::utf8::encode_utf8;
use widestring::U16CString;

use crate::register::{
    entries_view, is_printable_ascii, txt_entry_fault, RegistrationRequest,
    ServiceRegistrationError, TxtEntry, TxtRecordValue, TxtValue,
};
use crate::text::{decimal, with_decimal};

verus! {

/// `ERROR_SUCCESS`.
pub const ERROR_SUCCESS: u32 = 0;
/// `DNS_REQUEST_PENDING`: the request was started and its callback will fire.
pub const DNS_REQUEST_PENDING: u32 = 9506;

#[verifier::external_type_specification]
#[verifier::external_body]
pub struct ExU16CString(U16CString);

/// The number of UTF-16 code units of `c`.
pub open spec fn utf16_units(c: char) -> int {
    if (c as u32) < 0x10000 { 1 } else { 2 }
}

/// The number of UTF-16 code units of `s`.
pub open spec fn utf16_len(s: Seq<char>) -> int
    decreases s.len(),
{
    if s.len() == 0 {
        0
    } else {
        utf16_len(s.drop_last()) + utf16_units(s.last())
    }
}

/// `k` is the index of the first NUL character of `s`.
pub open spec fn first_nul_char_at(s: Seq<char>, k: int) -> bool {
    &&& 0 <= k < s.len()
    &&& s[k] == '\0'
    &&& forall|j: int| 0 <= j < k ==> s[j] != '\0'
}

/// `s` holds a NUL character that is not its last character.
pub open spec fn has_interior_nul(s: Seq<char>) -> bool {
    exists|k: int| 0 <= k < s.len() - 1 && #[trigger] first_nul_char_at(s, k)
}

/// Where the first NUL of `s` stands in its UTF-16 encoding.
pub open spec fn interior_nul_position(s: Seq<char>) -> int {
    utf16_len(s.take(choose|k: int| 0 <= k < s.len() - 1 && #[trigger] first_nul_char_at(s, k)))
}

/// A character takes two UTF-16 code units (a surrogate pair) exactly when it takes four
/// UTF-8 bytes, i.e. when it lies outside the Basic Multilingual Plane; otherwise one.
pub proof fn lemma_utf16_units(c: char)
    ensures
        utf16_units(c) == 2 <==> encode_utf8(seq![c]).len() == 4,
        utf16_units(c) == 1 <==> encode_utf8(seq![c]).len() < 4,
{
    vstd::utf8::char_is_scalar(c);
    assert(seq![c].drop_first() =~= Seq::<char>::empty());
    assert(encode_utf8(Seq::<char>::empty()) =~= Seq::<u8>::empty());
    assert(encode_utf8(seq![c]) == vstd::utf8::encode_scalar(seq![c][0] as u32) + encode_utf8(seq![c].drop_first()));
    assert(encode_utf8(seq![c]) =~= vstd::utf8::encode_scalar(c as u32));
}

/// The UTF-16 length of joined texts is the sum of their UTF-16 lengths.
pub proof fn lemma_utf16_len_concat(a: Seq<char>, b: Seq<char>)
    ensures
        utf16_len(a + b) == utf16_len(a) + utf16_len(b),
        utf16_len(a) >= a.len(),
    decreases b.len(), a.len(),
{
    if b.len() == 0 {
        assert(a + b =~= a);
        if a.len() > 0 {
            lemma_utf16_len_concat(a.drop_last(), b);
        }
    } else {
        lemma_utf16_len_concat(a, b.drop_last());
        assert((a + b).drop_last() =~= a + b.drop_last());
    }
}

/// A NUL before the first one exists exactly when some character other than the last is
/// a NUL.
proof fn lemma_first_nul_exists(s: Seq<char>, k: int)
    requires
        0 <= k < s.len(),
        s[k] == '\0',
    ensures
        exists|m: int| 0 <= m <= k && #[trigger] first_nul_char_at(s, m),
    decreases k,
{
    if exists|j: int| 0 <= j < k && s[j] == '\0' {
        let j = choose|j: int| 0 <= j < k && s[j] == '\0';
        lemma_first_nul_exists(s, j);
    } else {
        assert(first_nul_char_at(s, k));
    }
}

/// A text cannot be a wide C string exactly when a NUL stands before its last character.
pub proof fn lemma_has_interior_nul(s: Seq<char>)
    ensures
        has_interior_nul(s) <==> exists|k: int| 0 <= k < s.len() - 1 && #[trigger] s[k] == '\0',
{
    if exists|k: int| 0 <= k < s.len() - 1 && #[trigger] s[k] == '\0' {
        let k = choose|k: int| 0 <= k < s.len() - 1 && #[trigger] s[k] == '\0';
        lemma_first_nul_exists(s, k);
    }
}

/// The wide C string that `U16CString::from_str` makes of the text `s`.
pub uninterp spec fn wide_c_string(s: Seq<char>) -> U16CString;

/// Encodes `s` as a NUL-terminated UTF-16 string with `widestring::U16CString::from_str`.
///
/// Claimed of that function: it fails exactly when a NUL character stands before the
/// last character of `s` (a NUL at the very end is taken as the terminator), with the
/// position of the first NUL counted in UTF-16 code units; otherwise its result depends
/// on `s` alone. What the units of the result are is not stated.
#[verifier::external_body]
fn u16_c_string_from_str(s: &str) -> (res: Result<U16CString, usize>)
    ensures
        res is Err <==> has_interior_nul(s@),
        res matches Err(p) ==> p == interior_nul_position(s@) as usize,
        res matches Ok(w) ==> w == wide_c_string(s@),
{
    match U16CString::from_str(s) {
        Ok(w) => Ok(w),
        Err(e) => Err(e.nul_position()),
    }
}

/// The outcome of encoding the text `s` as a wide C string.
pub open spec fn wide_string_result(s: Seq<char>, res: Result<U16CString, ServiceRegistrationError>) -> bool {
    if has_interior_nul(s) {
        res matches Err(ServiceRegistrationError::ParameterContainsInteriorNulByte(p, pos))
            && p@ == s && pos == interior_nul_position(s) as usize
    } else {
        res == Ok::<U16CString, ServiceRegistrationError>(wide_c_string(s))
    }
}

/// Encodes `s` as a wide C string; the error names `s`.
pub fn wide_string(s: &str) -> (res: Result<U16CString, ServiceRegistrationError>)
    ensures
        wide_string_result(s@, res),
{
    match u16_c_string_from_str(s) {
        Ok(w) => Ok(w),
        Err(pos) => Err(ServiceRegistrationError::ParameterContainsInteriorNulByte(s.to_owned(), pos)),
    }
}

/// The text whose wide C string is the value of a TXT entry: empty for a key-only entry.
pub open spec fn wide_value_text(v: TxtValue) -> Seq<char> {
    match v {
        TxtValue::Text(s) => s,
        _ => Seq::empty(),
    }
}

/// The entry can be encoded: neither its key nor its value holds an interior NUL.
pub open spec fn wide_entry_ok(e: TxtEntry) -> bool {
    !has_interior_nul(e.0) && !has_interior_nul(wide_value_text(e.1))
}

/// The error for an entry that cannot be encoded: the key's, else the value's.
pub open spec fn wide_entry_error(e: TxtEntry, err: ServiceRegistrationError) -> bool {
    if has_interior_nul(e.0) {
        wide_string_result(e.0, Err(err))
    } else {
        wide_string_result(wide_value_text(e.1), Err(err))
    }
}

/// The index of the first entry at or after `start` that cannot be encoded.
pub open spec fn first_wide_fault_from(rs: Seq<TxtEntry>, start: int) -> Option<int>
    decreases rs.len() - start,
{
    if start < 0 || start >= rs.len() {
        None
    } else if !wide_entry_ok(rs[start]) {
        Some(start)
    } else {
        first_wide_fault_from(rs, start + 1)
    }
}

/// The key/value pair of wide C strings for one entry.
pub open spec fn wide_pair(e: TxtEntry) -> (U16CString, U16CString) {
    (wide_c_string(e.0), wide_c_string(wide_value_text(e.1)))
}

/// No entry of `rs` has a binary value, which the Win32 API cannot take.
pub open spec fn no_binary_values(rs: Seq<TxtEntry>) -> bool {
    forall|i: int| 0 <= i < rs.len() ==> !(rs[i].1 is Bytes)
}

/// The wide pair of an entry is the wide C string of the key and of the whole text value,
/// unchanged (the empty wide string for a key-only entry); the entry can be encoded
/// exactly when neither the key nor the text holds an interior NUL, and otherwise the
/// error is the key's, or else the text's.
pub proof fn lemma_wide_entry(key: Seq<char>, value: TxtValue)
    ensures
        value matches TxtValue::Text(s) ==> wide_pair((key, value)) == (wide_c_string(key), wide_c_string(s)),
        value is KeyOnly ==> wide_pair((key, value)) == (wide_c_string(key), wide_c_string(Seq::empty())),
        value matches TxtValue::Text(s) ==> (wide_entry_ok((key, value)) <==> !has_interior_nul(key)
            && !has_interior_nul(s)),
        value is KeyOnly ==> (wide_entry_ok((key, value)) <==> !has_interior_nul(key)),
        forall|e: ServiceRegistrationError| #[trigger] wide_entry_error((key, value), e) <==> if has_interior_nul(key) {
            wide_string_result(key, Err(e))
        } else {
            match value {
                TxtValue::Text(s) => wide_string_result(s, Err(e)),
                _ => wide_string_result(Seq::empty(), Err(e)),
            }
        },
{
    assert(!has_interior_nul(Seq::<char>::empty()));
}

/// The first entry that cannot be encoded is reported, and every entry before it can be;
/// when none is reported, every entry can be.
pub proof fn lemma_first_wide_fault(rs: Seq<TxtEntry>)
    ensures
        match first_wide_fault_from(rs, 0) {
            None => forall|j: int| 0 <= j < rs.len() ==> wide_entry_ok(rs[j]),
            Some(i) => {
                &&& 0 <= i < rs.len()
                &&& !wide_entry_ok(rs[i])
                &&& forall|j: int| 0 <= j < i ==> wide_entry_ok(rs[j])
            },
        },
{
    lemma_first_wide_fault_from(rs, 0);
}

proof fn lemma_first_wide_fault_from(rs: Seq<TxtEntry>, start: int)
    requires
        0 <= start,
    ensures
        match first_wide_fault_from(rs, start) {
            None => forall|j: int| start <= j < rs.len() ==> wide_entry_ok(rs[j]),
            Some(i) => {
                &&& start <= i < rs.len()
                &&& !wide_entry_ok(rs[i])
                &&& forall|j: int| start <= j < i ==> wide_entry_ok(rs[j])
            },
        },
    decreases rs.len() - start,
{
    if start < rs.len() {
        lemma_first_wide_fault_from(rs, start + 1);
    }
}

/// An empty text value is encoded as a key-only entry is: the Win32 API cannot tell the
/// two apart.
pub proof fn lemma_empty_text_is_key_only(key: Seq<char>)
    ensures
        wide_pair((key, TxtValue::Text(Seq::empty()))) == wide_pair((key, TxtValue::KeyOnly)),
{
}

/// A key that passes validation holds no NUL, so encoding it never fails.
pub proof fn lemma_valid_key_has_no_nul(key: Seq<char>, value: TxtValue)
    requires
        txt_entry_fault(key, value) is None,
    ensures
        !has_interior_nul(key),
{
    if has_interior_nul(key) {
        let k = choose|k: int| 0 <= k < key.len() - 1 && #[trigger] first_nul_char_at(key, k);
        assert(!is_printable_ascii(key[k]));
    }
}

fn wide_value(value: &TxtRecordValue) -> (res: Result<U16CString, ServiceRegistrationError>)
    requires
        !(value@ is Bytes),
    ensures
        wide_string_result(wide_value_text(value@), res),
{
    match value {
        TxtRecordValue::String(s) => {
            assert(wide_value_text(value@) == s@);
            wide_string(s.as_str())
        },
        _ => {
            proof {
                reveal_strlit("");
            }
            // the empty wide string
            let r = wide_string("");
            assert(""@ =~= wide_value_text(value@));
            r
        },
    }
}

/// The TXT entries as pairs of wide C strings, in order; or the error for the first
/// entry whose key, or else value, holds an interior NUL.
pub fn windows_txt_pairs(records: &[(String, TxtRecordValue)]) -> (res: Result<
    Vec<(U16CString, U16CString)>,
    ServiceRegistrationError,
>)
    requires
        no_binary_values(entries_view(records@)),
    ensures
        match first_wide_fault_from(entries_view(records@), 0) {
            None => res matches Ok(pairs) && pairs@ == entries_view(records@).map_values(
                |e: TxtEntry| wide_pair(e),
            ),
            Some(i) => res matches Err(err) && wide_entry_error(entries_view(records@)[i], err),
        },
{
    let ghost rs = entries_view(records@);
    let mut pairs: Vec<(U16CString, U16CString)> = Vec::new();
    let n = records.len();
    let mut i: usize = 0;
    while i < n
        invariant
            n == records@.len(),
            rs == entries_view(records@),
            no_binary_values(rs),
            i <= n,
            first_wide_fault_from(rs, 0) == first_wide_fault_from(rs, i as int),
            pairs@ == rs.take(i as int).map_values(|e: TxtEntry| wide_pair(e)),
        decreases n - i,
    {
        let (key, value) = &records[i];
        assert(rs[i as int] == (key@, value@));
        let k = match wide_string(key.as_str()) {
            Ok(k) => k,
            Err(e) => {
                return Err(e);
            },
        };
        let v = match wide_value(value) {
            Ok(v) => v,
            Err(e) => {
                return Err(e);
            },
        };
        pairs.push((k, v));
        assert(rs.take(i + 1) =~= rs.take(i as int).push(rs[i as int]));
        assert(pairs@ =~= rs.take(i + 1).map_values(|e: TxtEntry| wide_pair(e)));
        i = i + 1;
    }
    assert(rs.take(n as int) =~= rs);
    Ok(pairs)
}

/// The domain to register in: `local` when none was given.
pub fn windows_domain<'a>(domain: Option<&'a str>) -> (res: &'a str)
    ensures
        res@ == match domain {
            Some(d) => d@,
            None => "local"@,
        },
{
    match domain {
        Some(d) => d,
        None => "local",
    }
}

/// The names of the service instance: `<name>.<service type>.<domain>`, where the name
/// defaults to the host name, and `<host name>.<domain>`.
pub struct WindowsNames {
    pub instance_name: String,
    pub host_name: String,
}

/// The instance and host names for `req`, where `hostname` is the host given in the
/// request or else the computer's DNS host name.
pub fn windows_names(req: &RegistrationRequest, hostname: &str) -> (res: WindowsNames)
    ensures
        ({
            let domain = match req.domain {
                Some(d) => d@,
                None => "local"@,
            };
            let instance = match req.name {
                Some(n) => n@,
                None => hostname@,
            };
            &&& res.instance_name@ == instance + "."@ + req.service_type@ + "."@ + domain
            &&& res.host_name@ == hostname@ + "."@ + domain
        }),
{
    let domain = windows_domain(req.domain);
    let instance = match req.name {
        Some(n) => n,
        None => hostname,
    };
    let mut instance_name = instance.to_owned();
    instance_name.append(".");
    instance_name.append(req.service_type);
    instance_name.append(".");
    instance_name.append(domain);
    let mut host_name = hostname.to_owned();
    host_name.append(".");
    host_name.append(domain);
    WindowsNames { instance_name, host_name }
}

/// The status codes are those of the Win32 API: `ERROR_SUCCESS` is 0 and
/// `DNS_REQUEST_PENDING` is 9506.
pub proof fn lemma_win32_api_values()
    ensures
        ERROR_SUCCESS == 0 && DNS_REQUEST_PENDING == 9506,
{
}

/// What `DnsServiceRegister` returned: the request must be pending.
pub fn register_start_result(result: u32) -> (res: Result<(), ServiceRegistrationError>)
    ensures
        result == DNS_REQUEST_PENDING ==> res is Ok,
        result != DNS_REQUEST_PENDING ==> (res matches Err(ServiceRegistrationError::RegistrationError(m))
            && m@ == "DnsServiceRegister failed with status: "@ + decimal(result as int)),
{
    if result != DNS_REQUEST_PENDING {
        return Err(ServiceRegistrationError::RegistrationError(
            with_decimal("DnsServiceRegister failed with status: ", result as i64),
        ));
    }
    Ok(())
}

/// What the status that the registration callback reported means.
pub fn registration_status_result(status: u32) -> (res: Result<(), ServiceRegistrationError>)
    ensures
        status == ERROR_SUCCESS ==> res is Ok,
        status != ERROR_SUCCESS ==> (res matches Err(ServiceRegistrationError::RegistrationError(m))
            && m@ == "registration failed with status: "@ + decimal(status as int)),
{
    if status != ERROR_SUCCESS {
        return Err(ServiceRegistrationError::RegistrationError(
            with_decimal("registration failed with status: ", status as i64),
        ));
    }
    Ok(())
}

/// What `DnsServiceDeRegister` returned: the request must be pending.
pub fn deregister_start_result(result: u32) -> (res: Result<(), String>)
    ensures
        result == DNS_REQUEST_PENDING ==> res is Ok,
        result != DNS_REQUEST_PENDING ==> (res matches Err(m)
            && m@ == "deregistration failed to start with status "@ + decimal(result as int)),
{
    if result != DNS_REQUEST_PENDING {
        return Err(with_decimal("deregistration failed to start with status ", result as i64));
    }
    Ok(())
}

/// What the status that the deregistration callback reported means.
pub fn deregistration_status_result(status: u32) -> (res: Result<(), String>)
    ensures
        status == ERROR_SUCCESS ==> res is Ok,
        status != ERROR_SUCCESS ==> (res matches Err(m)
            && m@ == "service deregistration failed with status: "@ + decimal(status as int)),
{
    if status != ERROR_SUCCESS {
        return Err(with_decimal("service deregistration failed with status: ", status as i64));
    }
    Ok(())
}

} // verus!
