use vstd::prelude::*;
use vstd::utf8::{decode_utf8, encode_scalar, encode_utf8};

verus! {

/// A network interface index, as determined via the `if_nametoindex()` family of
/// calls. It is never zero.
#[derive(Clone, Copy, Debug, PartialEq, Eq, Structural)]
pub struct InterfaceIndex {
    value: u32,
}

impl InterfaceIndex {
    #[verifier::type_invariant]
    spec fn nonzero(self) -> bool {
        self.value != 0
    }

    /// The index as a number.
    pub closed spec fn spec_get(&self) -> u32 {
        self.value
    }

    /// Makes an interface index out of `value`, or `None` when `value` is zero.
    pub fn new(value: u32) -> (res: Option<InterfaceIndex>)
        ensures
            value == 0 ==> res is None,
            value != 0 ==> (res matches Some(i) && i.spec_get() == value),
    {
        if value == 0 {
            None
        } else {
            Some(InterfaceIndex { value })
        }
    }

    /// The index as a number; never zero.
    #[verifier::when_used_as_spec(spec_get)]
    pub fn get(&self) -> (v: u32)
        ensures
            v == self.spec_get(),
            v != 0,
    {
        proof {
            use_type_invariant(self);
        }
        self.value
    }
}

/// The interface number handed to the system: 0, meaning all interfaces, when no index
/// was given.
pub fn interface_number_or_all(index: Option<InterfaceIndex>) -> (res: u32)
    ensures
        res == match index {
            Some(i) => i.spec_get(),
            None => 0,
        },
{
    match index {
        Some(i) => i.get(),
        None => 0,
    }
}

/// Error type for service registration failures.
#[derive(Debug)]
pub enum ServiceRegistrationError {
    /// A TXT record key is invalid (empty, contains '=', or has non-ASCII characters).
    InvalidTxtRecordKey(String, String),
    /// A TXT record value is too large (key + value exceeds 255 bytes).
    InvalidTxtRecordValue(String, String),
    /// A string parameter contains an interior NUL byte.
    ParameterContainsInteriorNulByte(String, usize),
    /// The interface index is not valid.
    InvalidInterfaceIndex(u32),
    /// The hostname could not be determined automatically.
    HostnameUnavailable(String),
    /// DNS-SD not available on system (Linux only - either D-Bus or Avahi unavailable).
    DnsSdUnavailable(String),
    /// The native DNS-SD API returned an error.
    RegistrationError(String),
    /// The registration failed.
    RegistrationFailed(String),
    /// A service name conflict was detected.
    NameConflict,
}

/// The value part of a TXT record entry.
#[derive(Debug, Clone)]
pub enum TxtRecordValue {
    /// A key with no `=` and no value.
    KeyOnly,
    /// A key with a UTF-8 text value.
    String(String),
    /// A key with a binary value (not supported by the Windows backend).
    Binary(Vec<u8>),
}

/// The mathematical content of a [`TxtRecordValue`].
pub enum TxtValue {
    KeyOnly,
    Text(Seq<char>),
    Bytes(Seq<u8>),
}

impl View for TxtRecordValue {
    type V = TxtValue;

    open spec fn view(&self) -> TxtValue {
        match self {
            TxtRecordValue::KeyOnly => TxtValue::KeyOnly,
            TxtRecordValue::String(s) => TxtValue::Text(s@),
            TxtRecordValue::Binary(b) => TxtValue::Bytes(b@),
        }
    }
}

/// A TXT record entry as a key and a value.
pub type TxtEntry = (Seq<char>, TxtValue);

/// The content of a TXT entry as held in memory.
pub open spec fn entry_view(r: (String, TxtRecordValue)) -> TxtEntry {
    (r.0@, r.1@)
}

/// The content of a list of TXT entries as held in memory.
pub open spec fn entries_view(rs: Seq<(String, TxtRecordValue)>) -> Seq<TxtEntry> {
    rs.map_values(|r: (String, TxtRecordValue)| entry_view(r))
}

/// The bytes of one TXT entry as a DNS-SD TXT string: the key, then, for an entry with a
/// value, `=` and the value's bytes.
pub open spec fn txt_entry_bytes(e: TxtEntry) -> Seq<u8> {
    encode_utf8(e.0) + match e.1 {
        TxtValue::KeyOnly => Seq::empty(),
        TxtValue::Text(s) => seq![61u8] + encode_utf8(s),
        TxtValue::Bytes(b) => seq![61u8] + b,
    }
}

/// The TXT string for one entry (see [`txt_entry_bytes`]).
pub fn txt_entry_to_bytes(key: &String, value: &TxtRecordValue) -> (res: Vec<u8>)
    ensures
        res@ == txt_entry_bytes(entry_view((*key, *value))),
{
    let mut record = vstd::slice::slice_to_vec(key.as_str().as_bytes());
    match value {
        TxtRecordValue::KeyOnly => {},
        TxtRecordValue::String(s) => {
            record.push(61u8);
            record.extend_from_slice(s.as_str().as_bytes());
        },
        TxtRecordValue::Binary(b) => {
            record.push(61u8);
            record.extend_from_slice(b.as_slice());
        },
    }
    proof {
        let e = entry_view((*key, *value));
        match value {
            TxtRecordValue::KeyOnly => {
                assert(record@ =~= txt_entry_bytes(e));
            },
            TxtRecordValue::String(s) => {
                assert(record@ =~= txt_entry_bytes(e));
            },
            TxtRecordValue::Binary(b) => {
                assert(record@ =~= txt_entry_bytes(e));
            },
        }
    }
    record
}

/// The number of bytes that `str::len` reports for text whose characters are `s`.
pub open spec fn utf8_len(s: Seq<char>) -> int {
    encode_utf8(s).len() as usize as int
}

/// The bytes that a value takes in a TXT entry after the key: nothing for a key-only
/// entry, else `=` and the value's bytes.
pub open spec fn txt_value_len(v: TxtValue) -> int {
    match v {
        TxtValue::KeyOnly => 0,
        TxtValue::Text(s) => 1 + utf8_len(s),
        TxtValue::Bytes(b) => 1 + b.len() as int,
    }
}

/// The characters allowed in a TXT record key: printable US-ASCII, 0x20 to 0x7E.
pub open spec fn is_printable_ascii(c: char) -> bool {
    ' ' <= c && c <= '~'
}

/// What is wrong with a TXT record entry, in the order in which it is checked.
#[derive(Debug, Clone, Copy, PartialEq, Eq, Structural)]
pub enum TxtRecordFault {
    EmptyKey,
    KeyContainsEquals,
    KeyNotPrintable,
    TooLong,
}

/// The first rule of RFC 6763 section 6 that the entry `key`/`value` breaks, if any.
pub open spec fn txt_entry_fault(key: Seq<char>, value: TxtValue) -> Option<TxtRecordFault> {
    if key.len() == 0 {
        Some(TxtRecordFault::EmptyKey)
    } else if key.contains('=') {
        Some(TxtRecordFault::KeyContainsEquals)
    } else if exists|i: int| 0 <= i < key.len() && !is_printable_ascii(#[trigger] key[i]) {
        Some(TxtRecordFault::KeyNotPrintable)
    } else if utf8_len(key) + txt_value_len(value) > 255 {
        Some(TxtRecordFault::TooLong)
    } else {
        None
    }
}

/// The index and fault of the first faulty entry at or after `start`.
pub open spec fn first_txt_fault_from(rs: Seq<TxtEntry>, start: int) -> Option<(int, TxtRecordFault)>
    decreases rs.len() - start,
{
    if start < 0 || start >= rs.len() {
        None
    } else {
        match txt_entry_fault(rs[start].0, rs[start].1) {
            Some(f) => Some((start, f)),
            None => first_txt_fault_from(rs, start + 1),
        }
    }
}

/// The index and fault of the first faulty entry of `rs`.
pub open spec fn first_txt_fault(rs: Seq<TxtEntry>) -> Option<(int, TxtRecordFault)> {
    first_txt_fault_from(rs, 0)
}

/// Every entry of `rs` conforms to the rules.
pub open spec fn txt_entries_valid(rs: Seq<TxtEntry>) -> bool {
    forall|i: int| 0 <= i < rs.len() ==> txt_entry_fault(rs[i].0, rs[i].1) is None
}

/// `e` is the error that reports `fault` for the key `key`.
pub open spec fn reports_txt_fault(e: ServiceRegistrationError, key: Seq<char>, fault: TxtRecordFault) -> bool {
    match fault {
        TxtRecordFault::EmptyKey => e matches ServiceRegistrationError::InvalidTxtRecordKey(k, m)
            && k@ == key && m@ == "key must not be empty"@,
        TxtRecordFault::KeyContainsEquals => e matches ServiceRegistrationError::InvalidTxtRecordKey(k, m)
            && k@ == key && m@ == "key must not contain '='"@,
        TxtRecordFault::KeyNotPrintable => e matches ServiceRegistrationError::InvalidTxtRecordKey(k, m)
            && k@ == key && m@ == "key must contain only printable US-ASCII characters (0x20-0x7E)"@,
        TxtRecordFault::TooLong => e matches ServiceRegistrationError::InvalidTxtRecordValue(k, m)
            && k@ == key && m@ == "key + value must not exceed 255 bytes"@,
    }
}

/// What validating `rs` gives: `Ok` when no entry is faulty, else the error for the
/// first faulty entry.
pub open spec fn txt_validation_result(rs: Seq<TxtEntry>, res: Result<(), ServiceRegistrationError>) -> bool {
    match first_txt_fault(rs) {
        None => res is Ok,
        Some((i, f)) => res matches Err(e) && reports_txt_fault(e, rs[i].0, f),
    }
}

fn contains_char(s: &str, c: char) -> (res: bool)
    ensures
        res == s@.contains(c),
{
    let n = s.unicode_len();
    let mut i: usize = 0;
    while i < n
        invariant
            n == s@.len(),
            i <= n,
            forall|j: int| 0 <= j < i ==> s@[j] != c,
        decreases n - i,
    {
        if s.get_char(i) == c {
            return true;
        }
        i = i + 1;
    }
    false
}

fn all_printable_ascii(s: &str) -> (res: bool)
    ensures
        res == (forall|i: int| 0 <= i < s@.len() ==> is_printable_ascii(#[trigger] s@[i])),
{
    let n = s.unicode_len();
    let mut i: usize = 0;
    while i < n
        invariant
            n == s@.len(),
            i <= n,
            forall|j: int| 0 <= j < i ==> is_printable_ascii(#[trigger] s@[j]),
        decreases n - i,
    {
        let c = s.get_char(i);
        if !(' ' <= c && c <= '~') {
            assert(!is_printable_ascii(s@[i as int]));
            return false;
        }
        i = i + 1;
    }
    true
}

/// Checks one entry; the error names `key`.
fn check_txt_entry(key: &String, value: &TxtRecordValue) -> (res: Result<(), ServiceRegistrationError>)
    ensures
        match txt_entry_fault(key@, value@) {
            None => res is Ok,
            Some(f) => res matches Err(e) && reports_txt_fault(e, key@, f),
        },
{
    let k = key.as_str();
    if k.is_empty() {
        return Err(ServiceRegistrationError::InvalidTxtRecordKey(
            key.clone(),
            "key must not be empty".to_owned(),
        ));
    }
    if contains_char(k, '=') {
        return Err(ServiceRegistrationError::InvalidTxtRecordKey(
            key.clone(),
            "key must not contain '='".to_owned(),
        ));
    }
    if !all_printable_ascii(k) {
        return Err(ServiceRegistrationError::InvalidTxtRecordKey(
            key.clone(),
            "key must contain only printable US-ASCII characters (0x20-0x7E)".to_owned(),
        ));
    }
    let key_len = k.len();
    // `key_len + value_len > 255`, written so that it cannot overflow
    let too_long = match value {
        TxtRecordValue::KeyOnly => key_len > 255,
        TxtRecordValue::String(s) => key_len >= 255 || s.as_str().len() > 254 - key_len,
        TxtRecordValue::Binary(b) => key_len >= 255 || b.len() > 254 - key_len,
    };
    if too_long {
        return Err(ServiceRegistrationError::InvalidTxtRecordValue(
            key.clone(),
            "key + value must not exceed 255 bytes".to_owned(),
        ));
    }
    Ok(())
}

/// Validates that all TXT record key/value pairs conform to DNS-SD rules.
pub fn validate_txt_records(records: &[(String, TxtRecordValue)]) -> (res: Result<
    (),
    ServiceRegistrationError,
>)
    ensures
        txt_validation_result(entries_view(records@), res),
        res is Ok <==> txt_entries_valid(entries_view(records@)),
{
    let ghost rs = entries_view(records@);
    let n = records.len();
    let mut i: usize = 0;
    while i < n
        invariant
            n == records@.len(),
            rs == entries_view(records@),
            i <= n,
            first_txt_fault(rs) == first_txt_fault_from(rs, i as int),
            forall|j: int| 0 <= j < i ==> txt_entry_fault(rs[j].0, rs[j].1) is None,
        decreases n - i,
    {
        let (key, value) = &records[i];
        assert(rs[i as int] == entry_view(records@[i as int]));
        match check_txt_entry(key, value) {
            Ok(()) => {},
            Err(e) => {
                return Err(e);
            },
        }
        i = i + 1;
    }
    Ok(())
}

/// No two entries of `rs` have the same key.
pub open spec fn txt_keys_distinct(rs: Seq<TxtEntry>) -> bool {
    forall|i: int, j: int| 0 <= i < j < rs.len() ==> rs[i].0 != rs[j].0
}

/// `rs` after setting `key` to `value`: any earlier entry for `key` goes, the others
/// keep their order, and the new entry comes last.
pub open spec fn txt_entries_with(rs: Seq<TxtEntry>, key: Seq<char>, value: TxtValue) -> Seq<TxtEntry> {
    rs.filter(key_differs(key)).push((key, value))
}

/// The entries whose key is not `key`.
pub open spec fn key_differs(key: Seq<char>) -> spec_fn(TxtEntry) -> bool {
    |e: TxtEntry| e.0 != key
}

/// The entries that `filter` keeps are entries of the original sequence.
proof fn lemma_filter_elements(rs: Seq<TxtEntry>, p: spec_fn(TxtEntry) -> bool)
    ensures
        forall|i: int| 0 <= i < rs.filter(p).len() ==> exists|j: int| 0 <= j < rs.len() && #[trigger] rs.filter(p)[i] == rs[j],
        forall|i: int| 0 <= i < rs.filter(p).len() ==> p(#[trigger] rs.filter(p)[i]),
    decreases rs.len(),
{
    reveal(Seq::filter);
    if rs.len() > 0 {
        let t = rs.drop_last();
        lemma_filter_elements(t, p);
        assert forall|i: int| 0 <= i < rs.filter(p).len() implies exists|j: int| 0 <= j < rs.len() && #[trigger] rs.filter(p)[i] == rs[j] by {
            if i < t.filter(p).len() {
                let j = choose|j: int| 0 <= j < t.len() && t.filter(p)[i] == t[j];
                assert(rs.filter(p)[i] == rs[j]);
            } else {
                assert(rs.filter(p)[i] == rs[rs.len() - 1]);
            }
        }
        assert forall|i: int| 0 <= i < rs.filter(p).len() implies p(#[trigger] rs.filter(p)[i]) by {
            if i < t.filter(p).len() {
                assert(rs.filter(p)[i] == t.filter(p)[i]);
            }
        }
    }
}

/// Filtering keeps keys distinct.
proof fn lemma_filter_keys_distinct(rs: Seq<TxtEntry>, p: spec_fn(TxtEntry) -> bool)
    requires
        txt_keys_distinct(rs),
    ensures
        txt_keys_distinct(rs.filter(p)),
    decreases rs.len(),
{
    reveal(Seq::filter);
    if rs.len() > 0 {
        let t = rs.drop_last();
        lemma_filter_keys_distinct(t, p);
        lemma_filter_elements(t, p);
        let f = rs.filter(p);
        assert forall|a: int, b: int| 0 <= a < b < f.len() implies f[a].0 != f[b].0 by {
            if b == t.filter(p).len() {
                let j = choose|j: int| 0 <= j < t.len() && t.filter(p)[a] == t[j];
                assert(f[a] == rs[j]);
                assert(f[b] == rs[rs.len() - 1]);
            } else {
                assert(f[a] == t.filter(p)[a]);
                assert(f[b] == t.filter(p)[b]);
            }
        }
    }
}

/// Filtering twice by the same predicate is filtering once.
proof fn lemma_filter_idempotent(rs: Seq<TxtEntry>, p: spec_fn(TxtEntry) -> bool)
    ensures
        rs.filter(p).filter(p) == rs.filter(p),
    decreases rs.len(),
{
    reveal(Seq::filter);
    if rs.len() > 0 {
        let t = rs.drop_last();
        lemma_filter_idempotent(t, p);
        if p(rs.last()) {
            assert(t.filter(p).push(rs.last()).drop_last() =~= t.filter(p));
        }
    }
}

/// Setting a TXT key puts its entry last, leaves no other entry for that key, and keeps
/// the keys distinct.
pub proof fn lemma_txt_entries_with(rs: Seq<TxtEntry>, key: Seq<char>, value: TxtValue)
    ensures
        txt_entries_with(rs, key, value).last() == (key, value),
        forall|i: int| 0 <= i < txt_entries_with(rs, key, value).len() - 1
            ==> (#[trigger] txt_entries_with(rs, key, value)[i]).0 != key,
        txt_keys_distinct(rs) ==> txt_keys_distinct(txt_entries_with(rs, key, value)),
{
    let p = key_differs(key);
    let f = rs.filter(p);
    let w = txt_entries_with(rs, key, value);
    assert(w == f.push((key, value)));
    lemma_filter_elements(rs, p);
    assert forall|i: int| 0 <= i < w.len() - 1 implies (#[trigger] w[i]).0 != key by {
        assert(w[i] == f[i]);
        assert(p(f[i]));
    }
    if txt_keys_distinct(rs) {
        lemma_filter_keys_distinct(rs, p);
        assert forall|a: int, b: int| 0 <= a < b < w.len() implies w[a].0 != w[b].0 by {
            assert(w[a] == f[a]);
            if b < f.len() {
                assert(w[b] == f[b]);
            } else {
                assert(p(f[a]));
            }
        }
    }
}

/// Setting a TXT key twice is setting it once, to the later value.
pub proof fn lemma_txt_entries_with_twice(rs: Seq<TxtEntry>, key: Seq<char>, first: TxtValue, second: TxtValue)
    ensures
        txt_entries_with(txt_entries_with(rs, key, first), key, second) == txt_entries_with(rs, key, second),
{
    let p = key_differs(key);
    let once = rs.filter(p).push((key, first));
    reveal(Seq::filter);
    assert(once.drop_last() =~= rs.filter(p));
    assert(once.filter(p) == rs.filter(p).filter(p));
    lemma_filter_idempotent(rs, p);
}

/// When no entry has the key, filtering it out keeps every entry.
proof fn lemma_filter_keeps_all(rs: Seq<TxtEntry>, key: Seq<char>)
    requires
        forall|j: int| 0 <= j < rs.len() ==> rs[j].0 != key,
    ensures
        rs.filter(key_differs(key)) == rs,
    decreases rs.len(),
{
    reveal(Seq::filter);
    if rs.len() > 0 {
        let t = rs.drop_last();
        lemma_filter_keeps_all(t, key);
        assert(t.push(rs.last()) =~= rs);
    }
}

/// With distinct keys, filtering out the key of entry `j` removes exactly that entry.
proof fn lemma_filter_removes_one(rs: Seq<TxtEntry>, key: Seq<char>, j: int)
    requires
        txt_keys_distinct(rs),
        0 <= j < rs.len(),
        rs[j].0 == key,
    ensures
        rs.filter(key_differs(key)) == rs.remove(j),
    decreases rs.len(),
{
    reveal(Seq::filter);
    let t = rs.drop_last();
    if j == rs.len() - 1 {
        assert forall|i: int| 0 <= i < t.len() implies t[i].0 != key by {
            assert(rs[i].0 != rs[j].0);
        }
        lemma_filter_keeps_all(t, key);
        assert(rs.remove(j) =~= t);
    } else {
        assert(txt_keys_distinct(t)) by {
            assert forall|a: int, b: int| 0 <= a < b < t.len() implies t[a].0 != t[b].0 by {
                assert(rs[a].0 != rs[b].0);
            }
        }
        lemma_filter_removes_one(t, key, j);
        assert(rs.last().0 != key) by {
            assert(rs[j].0 != rs[rs.len() - 1].0);
        }
        assert(t.remove(j).push(rs.last()) =~= rs.remove(j));
    }
}

/// Setting key `key` on a list of TXT entries: the new entry comes last; every earlier
/// entry with another key stays; none with `key` stays. With distinct keys the result
/// before its last entry is exactly the old list, or the old list with the one entry for
/// `key` removed.
pub proof fn lemma_set_txt_key(rs: Seq<TxtEntry>, key: Seq<char>, value: TxtValue)
    ensures
        txt_entries_with(rs, key, value).len() >= 1,
        txt_entries_with(rs, key, value).last() == (key, value),
        forall|i: int| 0 <= i < rs.len() && rs[i].0 != key
            ==> txt_entries_with(rs, key, value).drop_last().contains(#[trigger] rs[i]),
        forall|i: int| 0 <= i < txt_entries_with(rs, key, value).len() - 1
            ==> (#[trigger] txt_entries_with(rs, key, value)[i]).0 != key,
        txt_keys_distinct(rs) && (forall|j: int| 0 <= j < rs.len() ==> rs[j].0 != key)
            ==> txt_entries_with(rs, key, value).drop_last() == rs,
        forall|j: int| 0 <= j < rs.len() && txt_keys_distinct(rs) && #[trigger] rs[j].0 == key
            ==> txt_entries_with(rs, key, value).drop_last() == rs.remove(j),
{
    let w = txt_entries_with(rs, key, value);
    let f = rs.filter(key_differs(key));
    assert(w.drop_last() =~= f);
    lemma_txt_entries_with(rs, key, value);
    reveal(Seq::filter);
    assert forall|i: int| 0 <= i < rs.len() && rs[i].0 != key implies w.drop_last().contains(#[trigger] rs[i]) by {
        rs.lemma_filter_contains(key_differs(key), i);
    }
    if txt_keys_distinct(rs) && (forall|j: int| 0 <= j < rs.len() ==> rs[j].0 != key) {
        lemma_filter_keeps_all(rs, key);
    }
    assert forall|j: int| 0 <= j < rs.len() && txt_keys_distinct(rs) && #[trigger] rs[j].0 == key
        implies w.drop_last() == rs.remove(j) by {
        lemma_filter_removes_one(rs, key, j);
    }
}

/// The TXT string of an entry is the key's UTF-8 bytes, then, for an entry with a value,
/// `=` and the value's bytes unchanged: the UTF-8 bytes of a text value, the bytes of a
/// binary one. Each part decodes back to what it encodes, and when the key holds no `=`
/// no byte before the separator is `=`.
pub proof fn lemma_txt_entry_string(key: Seq<char>, value: TxtValue)
    ensures
        txt_entry_bytes((key, value)).take(encode_utf8(key).len() as int) == encode_utf8(key),
        decode_utf8(txt_entry_bytes((key, value)).take(encode_utf8(key).len() as int)) == key,
        value is KeyOnly ==> txt_entry_bytes((key, value)) == encode_utf8(key),
        value matches TxtValue::Text(s) ==> {
            &&& txt_entry_bytes((key, value)).len() == encode_utf8(key).len() + 1 + encode_utf8(s).len()
            &&& txt_entry_bytes((key, value))[encode_utf8(key).len() as int] == 61u8
            &&& txt_entry_bytes((key, value)).skip(encode_utf8(key).len() as int + 1) == encode_utf8(s)
            &&& decode_utf8(txt_entry_bytes((key, value)).skip(encode_utf8(key).len() as int + 1)) == s
        },
        value matches TxtValue::Bytes(b) ==> {
            &&& txt_entry_bytes((key, value)).len() == encode_utf8(key).len() + 1 + b.len()
            &&& txt_entry_bytes((key, value))[encode_utf8(key).len() as int] == 61u8
            &&& txt_entry_bytes((key, value)).skip(encode_utf8(key).len() as int + 1) == b
        },
        !key.contains('=') ==> forall|j: int| 0 <= j < encode_utf8(key).len()
            ==> #[trigger] txt_entry_bytes((key, value))[j] != 61u8,
{
    broadcast use vstd::utf8::encode_utf8_decode_utf8;

    let kb = encode_utf8(key);
    let b = txt_entry_bytes((key, value));
    assert(b.take(kb.len() as int) =~= kb);
    match value {
        TxtValue::KeyOnly => {
            assert(b =~= kb);
        },
        TxtValue::Text(s) => {
            assert(b.skip(kb.len() as int + 1) =~= encode_utf8(s));
        },
        TxtValue::Bytes(v) => {
            assert(b.skip(kb.len() as int + 1) =~= v);
        },
    }
    if !key.contains('=') {
        lemma_no_equals_byte(key);
        assert forall|j: int| 0 <= j < kb.len() implies #[trigger] b[j] != 61u8 by {
            assert(b[j] == kb[j]);
        }
    }
}

/// The UTF-8 encoding of a scalar holds the byte `=` only when the scalar is `=`.
proof fn lemma_scalar_equals_byte(c: u32)
    requires
        vstd::utf8::is_scalar(c),
        c != 61,
    ensures
        forall|j: int| 0 <= j < encode_scalar(c).len() ==> #[trigger] encode_scalar(c)[j] != 61u8,
{
    if vstd::utf8::has_width_1_encoding(c) {
        assert((c & 0x7F) as u8 != 61u8) by (bit_vector)
            requires
                c <= 0x7F,
                c != 61,
        ;
    } else {
        assert(forall|x: u32| #[trigger] (0x80u8 | ((x & 0x3F) as u8)) != 61u8) by (bit_vector);
        assert(forall|x: u32| #[trigger] (0x80u8 | (((x >> 6) & 0x3F) as u8)) != 61u8) by (bit_vector);
        assert(forall|x: u32| #[trigger] (0x80u8 | (((x >> 12) & 0x3F) as u8)) != 61u8) by (bit_vector);
        assert(forall|x: u32| #[trigger] (0xC0u8 | (((x >> 6) & 0x1F) as u8)) != 61u8) by (bit_vector);
        assert(forall|x: u32| #[trigger] (0xE0u8 | (((x >> 12) & 0x0F) as u8)) != 61u8) by (bit_vector);
        assert(forall|x: u32| #[trigger] (0xF0u8 | (((x >> 18) & 0x7) as u8)) != 61u8) by (bit_vector);
    }
}

/// Text without `=` encodes to bytes without `=`.
proof fn lemma_no_equals_byte(s: Seq<char>)
    requires
        !s.contains('='),
    ensures
        forall|j: int| 0 <= j < encode_utf8(s).len() ==> #[trigger] encode_utf8(s)[j] != 61u8,
    decreases s.len(),
{
    if s.len() > 0 {
        let c = s[0] as u32;
        vstd::utf8::char_is_scalar(s[0]);
        assert(c != 61) by {
            if c == 61 {
                vstd::utf8::char_u32_cast(s[0], c);
                assert(s[0] == '=');
            }
        }
        lemma_scalar_equals_byte(c);
        assert(!s.drop_first().contains('=')) by {
            if s.drop_first().contains('=') {
                let k = choose|k: int| 0 <= k < s.drop_first().len() && s.drop_first()[k] == '=';
                assert(s[k + 1] == '=');
            }
        }
        lemma_no_equals_byte(s.drop_first());
        let e = encode_scalar(c);
        let r = encode_utf8(s.drop_first());
        assert(encode_utf8(s) == e + r);
        assert forall|j: int| 0 <= j < encode_utf8(s).len() implies #[trigger] encode_utf8(s)[j] != 61u8 by {
            if j < e.len() {
                assert(encode_utf8(s)[j] == e[j]);
            } else {
                assert(encode_utf8(s)[j] == r[j - e.len()]);
            }
        }
    }
}

/// The bytes after the separator that the value of an entry takes, counted directly.
pub open spec fn value_byte_count(v: TxtValue) -> int {
    match v {
        TxtValue::KeyOnly => 0,
        TxtValue::Text(s) => 1 + encode_utf8(s).len() as int,
        TxtValue::Bytes(b) => 1 + b.len() as int,
    }
}

/// Which entries validation accepts and which fault it reports, in terms of the key's
/// characters and byte counts: an empty key first, then a key with `=`, then a key with
/// a character outside ' '..='~' (0x20..=0x7E), then more than 255 bytes of key, `=` and value.
/// Every key of characters in ' '..='~' other than `=` is accepted when it is short
/// enough.
pub proof fn lemma_txt_entry_acceptance(key: Seq<char>, value: TxtValue)
    requires
        encode_utf8(key).len() <= usize::MAX,
        value matches TxtValue::Text(s) ==> encode_utf8(s).len() <= usize::MAX,
    ensures
        txt_entry_fault(key, value) is None <==> {
            &&& key.len() > 0
            &&& forall|i: int| 0 <= i < key.len() ==> ' ' <= #[trigger] key[i] <= '~' && key[i] != '='
            &&& encode_utf8(key).len() + value_byte_count(value) <= 255
        },
        key.len() == 0 ==> txt_entry_fault(key, value) == Some(TxtRecordFault::EmptyKey),
        key.len() > 0 && (exists|i: int| 0 <= i < key.len() && #[trigger] key[i] == '=')
            ==> txt_entry_fault(key, value) == Some(TxtRecordFault::KeyContainsEquals),
        key.len() > 0 && (forall|i: int| 0 <= i < key.len() ==> #[trigger] key[i] != '=')
            && (exists|i: int| 0 <= i < key.len() && !(' ' <= #[trigger] key[i] <= '~'))
            ==> txt_entry_fault(key, value) == Some(TxtRecordFault::KeyNotPrintable),
        key.len() > 0 && (forall|i: int| 0 <= i < key.len() ==> ' ' <= #[trigger] key[i] <= '~' && key[i] != '=')
            && encode_utf8(key).len() + value_byte_count(value) > 255
            ==> txt_entry_fault(key, value) == Some(TxtRecordFault::TooLong),
{
    assert(utf8_len(key) == encode_utf8(key).len());
    assert(txt_value_len(value) == value_byte_count(value));
    if key.len() > 0 && (exists|i: int| 0 <= i < key.len() && #[trigger] key[i] == '=') {
        let i = choose|i: int| 0 <= i < key.len() && #[trigger] key[i] == '=';
        assert(key.contains('='));
    }
    if key.contains('=') {
        let i = choose|i: int| 0 <= i < key.len() && key[i] == '=';
        assert(key[i] == '=');
    }
}

/// The first faulty entry that validation reports is faulty, and every entry before it
/// is valid; when none is reported, every entry is valid.
pub proof fn lemma_first_txt_fault(rs: Seq<TxtEntry>)
    ensures
        match first_txt_fault(rs) {
            None => forall|j: int| 0 <= j < rs.len() ==> txt_entry_fault(rs[j].0, rs[j].1) is None,
            Some((i, f)) => {
                &&& 0 <= i < rs.len()
                &&& txt_entry_fault(rs[i].0, rs[i].1) == Some(f)
                &&& forall|j: int| 0 <= j < i ==> txt_entry_fault(rs[j].0, rs[j].1) is None
            },
        },
{
    lemma_first_txt_fault_from(rs, 0);
}

proof fn lemma_first_txt_fault_from(rs: Seq<TxtEntry>, start: int)
    requires
        0 <= start,
    ensures
        match first_txt_fault_from(rs, start) {
            None => forall|j: int| start <= j < rs.len() ==> txt_entry_fault(rs[j].0, rs[j].1) is None,
            Some((i, f)) => {
                &&& start <= i < rs.len()
                &&& txt_entry_fault(rs[i].0, rs[i].1) == Some(f)
                &&& forall|j: int| start <= j < i ==> txt_entry_fault(rs[j].0, rs[j].1) is None
            },
        },
    decreases rs.len() - start,
{
    if start < rs.len() {
        lemma_first_txt_fault_from(rs, start + 1);
    }
}

/// Builder for DNS-SD service registrations.
///
/// See [RFC 6763](https://datatracker.ietf.org/doc/html/rfc6763) for details on the semantics of the various parameters.
#[derive(Debug)]
pub struct ServiceRegistrationBuilder {
    service_type: String,
    port: u16,
    name: Option<String>,
    host: Option<String>,
    domain: Option<String>,
    interface_index: Option<InterfaceIndex>,
    txt_record: Vec<(String, TxtRecordValue)>,
}

/// The content of a [`ServiceRegistrationBuilder`].
pub struct BuilderView {
    pub service_type: Seq<char>,
    pub port: u16,
    pub name: Option<Seq<char>>,
    pub host: Option<Seq<char>>,
    pub domain: Option<Seq<char>>,
    pub interface_index: Option<InterfaceIndex>,
    pub txt_record: Seq<TxtEntry>,
}

/// The text of an optional string.
pub open spec fn opt_string_view(o: Option<String>) -> Option<Seq<char>> {
    match o {
        Some(s) => Some(s@),
        None => None,
    }
}

impl View for ServiceRegistrationBuilder {
    type V = BuilderView;

    closed spec fn view(&self) -> BuilderView {
        BuilderView {
            service_type: self.service_type@,
            port: self.port,
            name: opt_string_view(self.name),
            host: opt_string_view(self.host),
            domain: opt_string_view(self.domain),
            interface_index: self.interface_index,
            txt_record: entries_view(self.txt_record@),
        }
    }
}

impl ServiceRegistrationBuilder {
    #[verifier::type_invariant]
    spec fn keys_distinct(self) -> bool {
        txt_keys_distinct(entries_view(self.txt_record@))
    }

    /// Initializes a new service registration builder with the given service type and port.
    ///
    /// - `service_type`:
    ///   The service type followed by the protocol, separated by a dot
    ///   (e.g. `_ftp._tcp`). The service type must be an underscore, followed
    ///   by 1-15 characters, which may be letters, digits, or hyphens.
    ///   The transport protocol must be `_tcp` or `_udp`.
    ///
    /// - `port`: The UDP/TCP port on which the service accepts connections.
    ///   Pass 0 for a "placeholder" service.
    pub fn new(service_type: &str, port: u16) -> (res: Self)
        ensures
            res@ == (BuilderView {
                service_type: service_type@,
                port,
                name: None,
                host: None,
                domain: None,
                interface_index: None,
                txt_record: Seq::empty(),
            }),
            txt_keys_distinct(res@.txt_record),
    {
        let res = ServiceRegistrationBuilder {
            service_type: service_type.to_owned(),
            port,
            name: None,
            host: None,
            domain: None,
            interface_index: None,
            txt_record: Vec::new(),
        };
        assert(entries_view(res.txt_record@) =~= Seq::empty());
        res
    }

    /// Specifies the service name to be registered.
    ///
    /// Most applications will not specify a name, in which case the computer
    /// name is used. If a name is specified, it must be 1-63 bytes of UTF-8 text.
    pub fn name(&mut self, name: &str) -> (r: &mut Self)
        ensures
            r@ == (BuilderView { name: Some(name@), ..old(self)@ }),
            *final(self) == *final(r),
            txt_keys_distinct(r@.txt_record),
    {
        proof {
            use_type_invariant(&*self);
        }
        self.name = Some(name.to_owned());
        self
    }

    /// Set the SRV target host name.
    ///
    /// Note that specifying a host does NOT create an address record for that host.
    pub fn host(&mut self, host: &str) -> (r: &mut Self)
        ensures
            r@ == (BuilderView { host: Some(host@), ..old(self)@ }),
            *final(self) == *final(r),
            txt_keys_distinct(r@.txt_record),
    {
        proof {
            use_type_invariant(&*self);
        }
        self.host = Some(host.to_owned());
        self
    }

    /// Set the domain on which to advertise the service.
    pub fn domain(&mut self, domain: &str) -> (r: &mut Self)
        ensures
            r@ == (BuilderView { domain: Some(domain@), ..old(self)@ }),
            *final(self) == *final(r),
            txt_keys_distinct(r@.txt_record),
    {
        proof {
            use_type_invariant(&*self);
        }
        self.domain = Some(domain.to_owned());
        self
    }

    /// Specifies the interface on which to register the service.
    ///
    /// Most applications will not specify an interface, instead automatically
    /// registering on all available interfaces.
    pub fn interface_index(&mut self, index: InterfaceIndex) -> (r: &mut Self)
        ensures
            r@ == (BuilderView { interface_index: Some(index), ..old(self)@ }),
            *final(self) == *final(r),
            txt_keys_distinct(r@.txt_record),
    {
        proof {
            use_type_invariant(&*self);
        }
        self.interface_index = Some(index);
        self
    }

    /// Sets the TXT entry for `key` to `value`, replacing any earlier entry for `key`.
    fn add_txt_record_key_value(&mut self, key: String, value: TxtRecordValue)
        ensures
            final(self)@ == (BuilderView {
                txt_record: txt_entries_with(old(self)@.txt_record, key@, value@),
                ..old(self)@
            }),
            txt_keys_distinct(final(self)@.txt_record),
    {
        proof {
            use_type_invariant(&*self);
        }
        let ghost old_rs = entries_view(self.txt_record@);
        let ghost pred = key_differs(key@);
        let mut old_records: Vec<(String, TxtRecordValue)> = Vec::new();
        std::mem::swap(&mut old_records, &mut self.txt_record);
        let mut kept: Vec<(String, TxtRecordValue)> = Vec::new();
        assert(entries_view(kept@) =~= old_rs.take(0).filter(pred)) by {
            reveal(Seq::filter);
        }
        for entry in it: old_records
            invariant
                old_rs == entries_view(old_records@),
                it.seq() == old_records@,
                txt_keys_distinct(old_rs),
                pred == key_differs(key@),
                entries_view(kept@) == old_rs.take(it.index() as int).filter(pred),
                forall|a: int| 0 <= a < kept@.len() ==> (#[trigger] kept@[a]).0@ != key@,
                forall|a: int, k: int|
                    0 <= a < kept@.len() && it.index() <= k < old_rs.len() ==> (#[trigger] kept@[a]).0@
                        != (#[trigger] old_rs[k]).0,
                txt_keys_distinct(entries_view(kept@)),
        {
            let ghost i = it.index() as int;
            let ghost before = kept@;
            assert(entry == old_records@[i]);
            assert(old_rs.take(i + 1).drop_last() =~= old_rs.take(i));
            assert(old_rs.take(i + 1).last() == entry_view(entry));
            if !(entry.0 == key) {
                kept.push(entry);
                assert(entries_view(kept@) =~= entries_view(before).push(entry_view(entry)));
                assert(entries_view(kept@) == old_rs.take(i + 1).filter(pred)) by {
                    reveal(Seq::filter);
                }
                assert(kept@[kept@.len() - 1] == entry);
                assert forall|a: int, k: int|
                    0 <= a < kept@.len() && i + 1 <= k < old_rs.len() implies (#[trigger] kept@[a]).0@
                        != (#[trigger] old_rs[k]).0 by {
                    if a < before.len() {
                        assert(kept@[a] == before[a]);
                    } else {
                        assert(entry_view(kept@[a]) == old_rs[i]);
                    }
                }
                assert forall|a: int, b: int| 0 <= a < b < kept@.len() implies entries_view(kept@)[a].0
                    != entries_view(kept@)[b].0 by {
                    if b == kept@.len() - 1 {
                        assert(kept@[a] == before[a]);
                        assert(old_rs[i].0 == entry_view(entry).0);
                        assert(entries_view(before)[a] == entry_view(before[a]));
                    } else {
                        assert(entries_view(kept@)[a] == entries_view(before)[a]);
                        assert(entries_view(kept@)[b] == entries_view(before)[b]);
                    }
                }
            } else {
                assert(entries_view(kept@) == old_rs.take(i + 1).filter(pred)) by {
                    reveal(Seq::filter);
                }
            }
        }
        let ghost before = kept@;
        assert(old_rs.take(old_rs.len() as int) =~= old_rs);
        kept.push((key, value));
        assert(entries_view(kept@) =~= entries_view(before).push((key@, value@)));
        assert(txt_keys_distinct(entries_view(kept@))) by {
            assert forall|a: int, b: int| 0 <= a < b < kept@.len() implies entries_view(kept@)[a].0
                != entries_view(kept@)[b].0 by {
                if b == kept@.len() - 1 {
                    assert(kept@[a] == before[a]);
                } else {
                    assert(entries_view(kept@)[a] == entries_view(before)[a]);
                    assert(entries_view(kept@)[b] == entries_view(before)[b]);
                }
            }
        }
        self.txt_record = kept;
    }
    /// Adds a TXT record key to the service registration, with an empty value.
    pub fn add_txt_record_key_empty(&mut self, key: &str) -> (r: &mut Self)
        ensures
            r@ == (BuilderView {
                txt_record: txt_entries_with(old(self)@.txt_record, key@, TxtValue::KeyOnly),
                ..old(self)@
            }),
            *final(self) == *final(r),
            txt_keys_distinct(r@.txt_record),
    {
        let key = key.to_owned();
        self.add_txt_record_key_value(key, TxtRecordValue::KeyOnly);
        self
    }

    /// Adds a TXT record key/value pair to the service registration.
    ///
    /// _Windows limitation:_ if `value` is an empty string, it will be treated as a key-only pair.
    pub fn add_txt_record_key_string(&mut self, key: &str, value: &str) -> (r: &mut Self)
        ensures
            r@ == (BuilderView {
                txt_record: txt_entries_with(old(self)@.txt_record, key@, TxtValue::Text(value@)),
                ..old(self)@
            }),
            *final(self) == *final(r),
            txt_keys_distinct(r@.txt_record),
    {
        let key = key.to_owned();
        let value = value.to_owned();
        self.add_txt_record_key_value(key, TxtRecordValue::String(value));
        self
    }

    /// Adds a TXT record key/value pair to the service registration, with a binary value.
    ///
    /// The Windows backend does not support binary TXT record values.
    pub fn add_txt_record_key_binary(&mut self, key: &str, value: &[u8]) -> (r: &mut Self)
        ensures
            r@ == (BuilderView {
                txt_record: txt_entries_with(old(self)@.txt_record, key@, TxtValue::Bytes(value@)),
                ..old(self)@
            }),
            *final(self) == *final(r),
            txt_keys_distinct(r@.txt_record),
    {
        let key = key.to_owned();
        let value = vstd::slice::slice_to_vec(value);
        self.add_txt_record_key_value(key, TxtRecordValue::Binary(value));
        self
    }
}

/// What a registration hands to the system's DNS-SD stack: the builder's parameters,
/// once its TXT record entries have been validated.
pub struct RegistrationRequest<'a> {
    pub service_type: &'a str,
    pub port: u16,
    pub name: Option<&'a str>,
    pub host: Option<&'a str>,
    pub domain: Option<&'a str>,
    pub interface_index: Option<InterfaceIndex>,
    pub txt_record: &'a [(String, TxtRecordValue)],
}

/// The text of an optional string slice.
pub open spec fn opt_str_view(o: Option<&str>) -> Option<Seq<char>> {
    match o {
        Some(s) => Some(s@),
        None => None,
    }
}

/// `req` carries exactly the parameters of the builder whose content is `b`.
pub open spec fn request_matches(req: RegistrationRequest, b: BuilderView) -> bool {
    &&& req.service_type@ == b.service_type
    &&& req.port == b.port
    &&& opt_str_view(req.name) == b.name
    &&& opt_str_view(req.host) == b.host
    &&& opt_str_view(req.domain) == b.domain
    &&& req.interface_index == b.interface_index
    &&& entries_view(req.txt_record@) == b.txt_record
}

fn opt_as_str(o: &Option<String>) -> (res: Option<&str>)
    ensures
        opt_str_view(res) == opt_string_view(*o),
{
    match o {
        Some(s) => Some(s.as_str()),
        None => None,
    }
}

impl ServiceRegistrationBuilder {
    /// The parameters that registering the service with the system hands over, after
    /// the TXT record entries have been validated against the DNS-SD rules; or the
    /// error for the first invalid entry.
    pub fn registration_request(&self) -> (res: Result<RegistrationRequest<'_>, ServiceRegistrationError>)
        ensures
            match first_txt_fault(self@.txt_record) {
                None => res matches Ok(req) && request_matches(req, self@),
                Some((i, f)) => res matches Err(e) && reports_txt_fault(e, self@.txt_record[i].0, f),
            },
            res is Ok <==> txt_entries_valid(self@.txt_record),
            txt_keys_distinct(self@.txt_record),
    {
        proof {
            use_type_invariant(self);
        }
        validate_txt_records(self.txt_record.as_slice())?;
        Ok(RegistrationRequest {
            service_type: self.service_type.as_str(),
            port: self.port,
            name: opt_as_str(&self.name),
            host: opt_as_str(&self.host),
            domain: opt_as_str(&self.domain),
            interface_index: self.interface_index,
            txt_record: self.txt_record.as_slice(),
        })
    }
}

} // verus!
