//! Plain-value parts of UDS translation: hex text in and out, service
//! identifier names, and the result records handed to the user interface.
use vstd::prelude::*;

use crate::text::{decimal, chars_of, contains, contains_exec, hex, pad_left, hex_padded, string_of};

verus! {

broadcast use vstd::std_specs::vec::group_vec_axioms;

// Service identifiers of ISO 14229 (UDS).
pub const SESSION_CONTROL: u8 = 0x10;
pub const ECU_RESET: u8 = 0x11;
pub const CLEAR_DIAGNOSTIC_INFORMATION: u8 = 0x14;
pub const READ_DTC_INFORMATION: u8 = 0x19;
pub const READ_DATA_BY_IDENTIFIER: u8 = 0x22;
pub const SECURITY_ACCESS: u8 = 0x27;
pub const COMMUNICATION_CONTROL: u8 = 0x28;
pub const AUTHENTICATION: u8 = 0x29;
pub const WRITE_DATA_BY_IDENTIFIER: u8 = 0x2E;
pub const INPUT_OUTPUT_CONTROL_BY_IDENTIFIER: u8 = 0x2F;
pub const ROUTINE_CONTROL: u8 = 0x31;
pub const REQUEST_DOWNLOAD: u8 = 0x34;
pub const TRANSFER_DATA: u8 = 0x36;
pub const REQUEST_TRANSFER_EXIT: u8 = 0x37;
pub const TESTER_PRESENT: u8 = 0x3E;
pub const NEGATIVE_RESPONSE: u8 = 0x7F;
pub const CONTROL_DTC_SETTING: u8 = 0x85;

/// A service matched by name or SID lookup.
#[derive(Debug, Clone)]
pub struct MatchedService {
    pub name: String,
    pub service_type: String,
}

/// A variant available in the loaded MDD database.
#[derive(Debug, Clone)]
pub struct VariantInfo {
    pub name: String,
    pub is_base_variant: bool,
    pub is_active: bool,
}

/// Result of translating UDS bytes to a service.
#[derive(Debug, Clone)]
pub struct UdsLookupResult {
    pub matched_services: Vec<MatchedService>,
    pub sid_name: String,
}

/// Result of encoding JSON parameters into UDS bytes.
#[derive(Debug, Clone)]
pub struct UdsEncodeResult {
    pub service_name: String,
    pub hex_bytes: String,
    pub raw_bytes: Vec<u8>,
}

/// Category of a diagnostic communication, as the diagnostic runtime
/// classifies it.
#[derive(Debug, Clone, Copy, PartialEq, Eq, Structural)]
pub enum DiagCommType {
    Data,
    Configurations,
    Operations,
    Modes,
    Faults,
}

impl DiagCommType {
    pub open spec fn label(self) -> Seq<char> {
        match self {
            DiagCommType::Data => "data"@,
            DiagCommType::Configurations => "configurations"@,
            DiagCommType::Operations => "operations"@,
            DiagCommType::Modes => "modes"@,
            DiagCommType::Faults => "faults"@,
        }
    }

    /// The lower-case category name used in service listings.
    pub fn as_str(self) -> (r: &'static str)
        ensures
            r@ == self.label(),
    {
        match self {
            DiagCommType::Data => "data",
            DiagCommType::Configurations => "configurations",
            DiagCommType::Operations => "operations",
            DiagCommType::Modes => "modes",
            DiagCommType::Faults => "faults",
        }
    }
}

/// Build a `MatchedService` from a diagnostic communication's name and type.
pub fn matched_service_from_diagcomm(name: &str, comm_type: DiagCommType) -> (r: MatchedService)
    ensures
        r.name@ == name@,
        r.service_type@ == comm_type.label(),
{
    MatchedService { name: name.to_owned(), service_type: comm_type.as_str().to_owned() }
}

/// An error message of the diagnostic runtime says that the service uses
/// `EnvData`, `EnvDataDesc`, DTC, `StaticField` or `DynamicLengthField` DOPs,
/// which cannot be mapped to a request payload.
pub open spec fn spec_is_unsupported_dop_message(msg: Seq<char>) -> bool {
    contains(msg, "EnvData"@) || contains(msg, "DTC DoPs"@) || contains(msg, "StaticField"@)
        || contains(msg, "DynamicLengthField"@)
}

/// Does an error message name a DOP kind that cannot be encoded.
pub fn is_unsupported_dop_error(msg: &str) -> (r: bool)
    ensures
        r == spec_is_unsupported_dop_message(msg@),
{
    let m = chars_of(msg);
    let a = chars_of("EnvData");
    let b = chars_of("DTC DoPs");
    let c = chars_of("StaticField");
    let d = chars_of("DynamicLengthField");
    contains_exec(m.as_slice(), a.as_slice()) || contains_exec(m.as_slice(), b.as_slice())
        || contains_exec(m.as_slice(), c.as_slice()) || contains_exec(m.as_slice(), d.as_slice())
}

/// All UDS SIDs scanned when enumerating services.
pub open spec fn all_sids() -> Seq<u8> {
    seq![
        READ_DATA_BY_IDENTIFIER,
        WRITE_DATA_BY_IDENTIFIER,
        ROUTINE_CONTROL,
        INPUT_OUTPUT_CONTROL_BY_IDENTIFIER,
        SESSION_CONTROL,
        ECU_RESET,
        CLEAR_DIAGNOSTIC_INFORMATION,
        READ_DTC_INFORMATION,
        SECURITY_ACCESS,
        AUTHENTICATION,
        COMMUNICATION_CONTROL,
        CONTROL_DTC_SETTING,
        TESTER_PRESENT,
        REQUEST_DOWNLOAD,
        TRANSFER_DATA,
        REQUEST_TRANSFER_EXIT,
    ]
}

/// The SIDs scanned when enumerating services, in scan order.
pub fn scanned_sids() -> (r: Vec<u8>)
    ensures
        r@ == all_sids(),
{
    let r = vec![
        READ_DATA_BY_IDENTIFIER,
        WRITE_DATA_BY_IDENTIFIER,
        ROUTINE_CONTROL,
        INPUT_OUTPUT_CONTROL_BY_IDENTIFIER,
        SESSION_CONTROL,
        ECU_RESET,
        CLEAR_DIAGNOSTIC_INFORMATION,
        READ_DTC_INFORMATION,
        SECURITY_ACCESS,
        AUTHENTICATION,
        COMMUNICATION_CONTROL,
        CONTROL_DTC_SETTING,
        TESTER_PRESENT,
        REQUEST_DOWNLOAD,
        TRANSFER_DATA,
        REQUEST_TRANSFER_EXIT,
    ];
    assert(r@ =~= all_sids());
    r
}

/// The standard name of a service identifier, if it is one of the known ones.
pub open spec fn known_sid_name(sid: u8) -> Option<Seq<char>> {
    if sid == SESSION_CONTROL {
        Some("DiagnosticSessionControl"@)
    } else if sid == ECU_RESET {
        Some("ECUReset"@)
    } else if sid == CLEAR_DIAGNOSTIC_INFORMATION {
        Some("ClearDiagnosticInformation"@)
    } else if sid == READ_DTC_INFORMATION {
        Some("ReadDTCInformation"@)
    } else if sid == READ_DATA_BY_IDENTIFIER {
        Some("ReadDataByIdentifier"@)
    } else if sid == SECURITY_ACCESS {
        Some("SecurityAccess"@)
    } else if sid == COMMUNICATION_CONTROL {
        Some("CommunicationControl"@)
    } else if sid == AUTHENTICATION {
        Some("Authentication"@)
    } else if sid == WRITE_DATA_BY_IDENTIFIER {
        Some("WriteDataByIdentifier"@)
    } else if sid == INPUT_OUTPUT_CONTROL_BY_IDENTIFIER {
        Some("InputOutputControlByIdentifier"@)
    } else if sid == ROUTINE_CONTROL {
        Some("RoutineControl"@)
    } else if sid == REQUEST_DOWNLOAD {
        Some("RequestDownload"@)
    } else if sid == TRANSFER_DATA {
        Some("TransferData"@)
    } else if sid == REQUEST_TRANSFER_EXIT {
        Some("RequestTransferExit"@)
    } else if sid == TESTER_PRESENT {
        Some("TesterPresent"@)
    } else if sid == CONTROL_DTC_SETTING {
        Some("ControlDTCSetting"@)
    } else if sid == NEGATIVE_RESPONSE {
        Some("NegativeResponse"@)
    } else {
        None
    }
}

fn known_sid(sid: u8) -> (r: Option<&'static str>)
    ensures
        r is Some <==> known_sid_name(sid) is Some,
        r matches Some(s) ==> s@ == known_sid_name(sid)->0,
{
    if sid == SESSION_CONTROL {
        Some("DiagnosticSessionControl")
    } else if sid == ECU_RESET {
        Some("ECUReset")
    } else if sid == CLEAR_DIAGNOSTIC_INFORMATION {
        Some("ClearDiagnosticInformation")
    } else if sid == READ_DTC_INFORMATION {
        Some("ReadDTCInformation")
    } else if sid == READ_DATA_BY_IDENTIFIER {
        Some("ReadDataByIdentifier")
    } else if sid == SECURITY_ACCESS {
        Some("SecurityAccess")
    } else if sid == COMMUNICATION_CONTROL {
        Some("CommunicationControl")
    } else if sid == AUTHENTICATION {
        Some("Authentication")
    } else if sid == WRITE_DATA_BY_IDENTIFIER {
        Some("WriteDataByIdentifier")
    } else if sid == INPUT_OUTPUT_CONTROL_BY_IDENTIFIER {
        Some("InputOutputControlByIdentifier")
    } else if sid == ROUTINE_CONTROL {
        Some("RoutineControl")
    } else if sid == REQUEST_DOWNLOAD {
        Some("RequestDownload")
    } else if sid == TRANSFER_DATA {
        Some("TransferData")
    } else if sid == REQUEST_TRANSFER_EXIT {
        Some("RequestTransferExit")
    } else if sid == TESTER_PRESENT {
        Some("TesterPresent")
    } else if sid == CONTROL_DTC_SETTING {
        Some("ControlDTCSetting")
    } else if sid == NEGATIVE_RESPONSE {
        Some("NegativeResponse")
    } else {
        None
    }
}

/// Human-readable name of a service identifier: its standard name; for a
/// positive response (request SID + 0x40) the request's name followed by
/// `" (positive response)"`; otherwise `"Unknown SID 0xNN"`.
pub open spec fn spec_describe_sid(sid: u8) -> Seq<char> {
    match known_sid_name(sid) {
        Some(n) => n,
        None => if sid >= 0x40 && known_sid_name((sid - 0x40) as u8) is Some {
            known_sid_name((sid - 0x40) as u8)->0 + " (positive response)"@
        } else {
            "Unknown SID 0x"@ + pad_left(hex(sid as nat), '0', 2)
        },
    }
}

/// Return a human-readable name for a UDS Service Identifier.
pub fn describe_sid(sid: u8) -> (r: String)
    ensures
        r@ == spec_describe_sid(sid),
{
    match known_sid(sid) {
        Some(n) => n.to_owned(),
        None => {
            if sid >= 0x40 {
                if let Some(n) = known_sid(sid - 0x40) {
                    let mut r = n.to_owned();
                    r.append(" (positive response)");
                    return r;
                }
            }
            let mut r = "Unknown SID 0x".to_owned();
            let h = hex_padded(sid as u64, 2);
            r.append(h.as_str());
            r
        },
    }
}

// Hex text
/// An ASCII hexadecimal digit.
pub open spec fn is_hex_digit(c: char) -> bool {
    ('0' <= c && c <= '9') || ('a' <= c && c <= 'f') || ('A' <= c && c <= 'F')
}

/// Value of a hexadecimal digit.
pub open spec fn hex_digit_value(c: char) -> nat {
    if '0' <= c && c <= '9' {
        (c as nat - '0' as nat) as nat
    } else if 'a' <= c && c <= 'f' {
        (c as nat - 'a' as nat + 10) as nat
    } else {
        (c as nat - 'A' as nat + 10) as nat
    }
}

/// The hexadecimal digits of a text, in order; everything else is dropped.
pub open spec fn hex_digits_only(s: Seq<char>) -> Seq<char>
    decreases s.len(),
{
    if s.len() == 0 {
        Seq::empty()
    } else {
        hex_digits_only(s.drop_last()) + if is_hex_digit(s.last()) {
            seq![s.last()]
        } else {
            Seq::empty()
        }
    }
}

/// The bytes spelled by pairs of hex digits.
pub open spec fn bytes_of_digit_pairs(d: Seq<char>) -> Seq<u8> {
    Seq::new(
        d.len() / 2,
        |i: int| (16 * hex_digit_value(d[2 * i]) + hex_digit_value(d[2 * i + 1])) as u8,
    )
}

/// Why a hex string could not be read.
#[derive(Debug, Clone, PartialEq, Eq, Structural)]
pub enum HexError {
    /// The text holds a character that is neither a hex digit nor white
    /// space (the first such character is given).
    InvalidChar(char),
    /// The text holds an odd number of hex digits (the count is given).
    OddDigitCount(usize),
}

/// The message of a hex-string error.
pub open spec fn hex_error_text(e: HexError) -> Seq<char> {
    match e {
        HexError::InvalidChar(_) => "Invalid hex digit"@,
        HexError::OddDigitCount(n) => "Hex string has odd number of digits ("@ + decimal(n as nat) + " digits)"@,
    }
}

impl HexError {
    /// The message reported for the error: `Invalid hex digit`, or `Hex
    /// string has odd number of digits (N digits)`.
    pub fn message(&self) -> (r: String)
        ensures
            r@ == hex_error_text(*self),
    {
        match self {
            HexError::InvalidChar(_) => "Invalid hex digit".to_owned(),
            HexError::OddDigitCount(n) => {
                let mut r = "Hex string has odd number of digits (".to_owned();
                r.append(crate::text::usize_to_decimal(*n).as_str());
                r.append(" digits)");
                r
            },
        }
    }
}

/// ASCII white space, which may separate the digits of a hex string.
pub open spec fn is_hex_space(c: char) -> bool {
    c == ' ' || c == '\t' || c == '\n' || c == '\r' || c == '\x0C'
}

/// The first character of `s` that is neither a hex digit nor white space.
pub open spec fn first_invalid(s: Seq<char>) -> Option<char>
    decreases s.len(),
{
    if s.len() == 0 {
        None
    } else {
        match first_invalid(s.drop_last()) {
            Some(c) => Some(c),
            None => if is_hex_digit(s.last()) || is_hex_space(s.last()) {
                None
            } else {
                Some(s.last())
            },
        }
    }
}

/// What `parse_hex_string` returns for a text: an error naming the first
/// character that is neither a hex digit nor white space; else an error when
/// the digits are odd in number; else the bytes spelled by the digit pairs.
pub open spec fn spec_parse_hex(s: Seq<char>) -> Result<Seq<u8>, HexError> {
    let d = hex_digits_only(s);
    match first_invalid(s) {
        Some(c) => Err(HexError::InvalidChar(c)),
        None => if d.len() % 2 != 0 {
            Err(HexError::OddDigitCount(d.len() as usize))
        } else {
            Ok(bytes_of_digit_pairs(d))
        },
    }
}

proof fn lemma_first_invalid_prefix(s: Seq<char>, n: int)
    requires
        0 <= n <= s.len(),
        first_invalid(s.subrange(0, n)) is Some,
    ensures
        first_invalid(s) == first_invalid(s.subrange(0, n)),
    decreases s.len() - n,
{
    if n < s.len() {
        let t = s.subrange(0, n + 1);
        assert(t.drop_last() =~= s.subrange(0, n));
        lemma_first_invalid_prefix(s, n + 1);
    } else {
        assert(s.subrange(0, n) =~= s);
    }
}

proof fn lemma_first_invalid_none(s: Seq<char>)
    requires
        forall|i: int| 0 <= i < s.len() ==> is_hex_digit(#[trigger] s[i]) || is_hex_space(s[i]),
    ensures
        first_invalid(s) is None,
    decreases s.len(),
{
    if s.len() > 0 {
        let p = s.drop_last();
        assert forall|i: int| 0 <= i < p.len() implies is_hex_digit(#[trigger] p[i]) || is_hex_space(p[i]) by {
            assert(p[i] == s[i]);
        }
        lemma_first_invalid_none(p);
        assert(s.last() == s[s.len() - 1]);
    }
}

fn hex_value(c: char) -> (r: u8)
    requires
        is_hex_digit(c),
    ensures
        r as nat == hex_digit_value(c),
        r < 16,
{
    if '0' <= c && c <= '9' {
        (c as u32 - '0' as u32) as u8
    } else if 'a' <= c && c <= 'f' {
        (c as u32 - 'a' as u32 + 10) as u8
    } else {
        (c as u32 - 'A' as u32 + 10) as u8
    }
}

pub fn is_hex_digit_exec(c: char) -> (r: bool)
    ensures
        r == is_hex_digit(c),
{
    ('0' <= c && c <= '9') || ('a' <= c && c <= 'f') || ('A' <= c && c <= 'F')
}

/// Parse a hex string like `"22 F1 90"` or `"22F190"` into raw bytes.
///
/// White space between digits is skipped and the digits are read in pairs.
/// A character that is neither a hex digit nor white space is an error, and
/// so is an odd number of digits.
pub fn parse_hex_string(hex_text: &str) -> (r: Result<Vec<u8>, HexError>)
    ensures
        match spec_parse_hex(hex_text@) {
            Ok(b) => r matches Ok(v) && v@ == b,
            Err(e) => r == Err::<Vec<u8>, HexError>(e),
        },
{
    let chars = chars_of(hex_text);
    let mut clean: Vec<char> = Vec::new();
    let mut i: usize = 0;
    while i < chars.len()
        invariant
            chars@ == hex_text@,
            0 <= i <= chars@.len(),
            clean@ == hex_digits_only(chars@.subrange(0, i as int)),
            clean@.len() <= i,
            forall|k: int| 0 <= k < clean@.len() ==> is_hex_digit(#[trigger] clean@[k]),
            first_invalid(chars@.subrange(0, i as int)) is None,
        decreases chars.len() - i,
    {
        let c = chars[i];
        proof {
            let pre = chars@.subrange(0, i + 1);
            assert(pre.drop_last() =~= chars@.subrange(0, i as int));
            assert(pre.last() == c);
        }
        if is_hex_digit_exec(c) {
            clean.push(c);
        } else if !(c == ' ' || c == '\t' || c == '\n' || c == '\r' || c == '\x0C') {
            proof {
                lemma_first_invalid_prefix(chars@, i + 1);
            }
            return Err(HexError::InvalidChar(c));
        }
        i = i + 1;
    }
    assert(chars@.subrange(0, chars@.len() as int) =~= chars@);
    if clean.len() % 2 != 0 {
        return Err(HexError::OddDigitCount(clean.len()));
    }
    let mut bytes: Vec<u8> = Vec::new();
    let mut k: usize = 0;
    while k < clean.len() / 2
        invariant
            clean@ == hex_digits_only(hex_text@),
            clean@.len() % 2 == 0,
            forall|j: int| 0 <= j < clean@.len() ==> is_hex_digit(#[trigger] clean@[j]),
            0 <= k <= clean@.len() / 2,
            bytes@ == bytes_of_digit_pairs(clean@).subrange(0, k as int),
        decreases clean.len() / 2 - k,
    {
        let hi = hex_value(clean[2 * k]);
        let lo = hex_value(clean[2 * k + 1]);
        let b = hi * 16 + lo;
        bytes.push(b);
        proof {
            assert(b == bytes_of_digit_pairs(clean@)[k as int]);
        }
        k = k + 1;
        assert(bytes@ =~= bytes_of_digit_pairs(clean@).subrange(0, k as int));
    }
    assert(bytes@ =~= bytes_of_digit_pairs(clean@));
    Ok(bytes)
}

/// Bytes as upper-case two-digit hex numbers separated by single spaces.
pub open spec fn spec_hex_bytes(b: Seq<u8>) -> Seq<char>
    decreases b.len(),
{
    if b.len() == 0 {
        Seq::empty()
    } else if b.len() == 1 {
        pad_left(hex(b[0] as nat), '0', 2)
    } else {
        spec_hex_bytes(b.drop_last()) + " "@ + pad_left(hex(b.last() as nat), '0', 2)
    }
}

/// Render bytes as `"22 F1 90"`, the text shown for an encoded request.
pub fn format_hex_bytes(bytes: &[u8]) -> (r: String)
    ensures
        r@ == spec_hex_bytes(bytes@),
{
    let mut r = String::new();
    let mut i: usize = 0;
    while i < bytes.len()
        invariant
            0 <= i <= bytes@.len(),
            r@ == spec_hex_bytes(bytes@.subrange(0, i as int)),
        decreases bytes.len() - i,
    {
        if i > 0 {
            r.append(" ");
        }
        let h = hex_padded(bytes[i] as u64, 2);
        r.append(h.as_str());
        proof {
            let pre = bytes@.subrange(0, i + 1);
            assert(pre.drop_last() =~= bytes@.subrange(0, i as int));
            if i == 0 {
                assert(bytes@.subrange(0, 0) =~= Seq::<u8>::empty());
            }
        }
        i = i + 1;
    }
    assert(bytes@.subrange(0, bytes@.len() as int) =~= bytes@);
    r
}


/// The two-digit hex text of a byte.
pub open spec fn byte_hex(b: u8) -> Seq<char> {
    pad_left(hex(b as nat), '0', 2)
}

proof fn lemma_digit_char_hex(d: nat)
    requires
        d < 16,
    ensures
        is_hex_digit(crate::text::digit_char(d)),
        hex_digit_value(crate::text::digit_char(d)) == d,
{
}

proof fn lemma_byte_hex(b: u8)
    ensures
        byte_hex(b).len() == 2,
        is_hex_digit(byte_hex(b)[0]),
        is_hex_digit(byte_hex(b)[1]),
        16 * hex_digit_value(byte_hex(b)[0]) + hex_digit_value(byte_hex(b)[1]) == b as nat,
{
    let n = b as nat;
    if n < 16 {
        assert(crate::text::digits(n, 16) == seq![crate::text::digit_char(n % 16)]);
        assert(byte_hex(b) =~= seq!['0', crate::text::digit_char(n)]);
        lemma_digit_char_hex(n);
    } else {
        assert(n / 16 < 16);
        assert(crate::text::digits(n / 16, 16) == seq![crate::text::digit_char((n / 16) % 16)]);
        assert(crate::text::digits(n, 16) =~= seq![
            crate::text::digit_char(n / 16),
            crate::text::digit_char(n % 16),
        ]);
        lemma_digit_char_hex(n / 16);
        lemma_digit_char_hex(n % 16);
    }
}

/// The hex digits of a text followed by more text.
proof fn lemma_hex_digits_only_append(a: Seq<char>, b: Seq<char>)
    ensures
        hex_digits_only(a + b) == hex_digits_only(a) + hex_digits_only(b),
    decreases b.len(),
{
    if b.len() == 0 {
        assert(a + b =~= a);
        assert(hex_digits_only(a) + hex_digits_only(b) =~= hex_digits_only(a));
    } else {
        lemma_hex_digits_only_append(a, b.drop_last());
        assert((a + b).drop_last() =~= a + b.drop_last());
        assert((a + b).last() == b.last());
        let t = if is_hex_digit(b.last()) { seq![b.last()] } else { Seq::<char>::empty() };
        assert(hex_digits_only(a) + hex_digits_only(b.drop_last()) + t =~= hex_digits_only(a) + (
        hex_digits_only(b.drop_last()) + t));
    }
}

proof fn lemma_hex_digits_only_of_digits(s: Seq<char>)
    requires
        forall|i: int| 0 <= i < s.len() ==> is_hex_digit(#[trigger] s[i]),
    ensures
        hex_digits_only(s) == s,
    decreases s.len(),
{
    if s.len() > 0 {
        lemma_hex_digits_only_of_digits(s.drop_last());
        assert(hex_digits_only(s.drop_last()) + seq![s.last()] =~= s);
    }
}

/// The digits of the rendering of `b`: two per byte.
pub open spec fn digit_pairs(b: Seq<u8>) -> Seq<char>
    decreases b.len(),
{
    if b.len() == 0 {
        Seq::empty()
    } else {
        digit_pairs(b.drop_last()) + byte_hex(b.last())
    }
}

proof fn lemma_digit_pairs(b: Seq<u8>)
    ensures
        hex_digits_only(spec_hex_bytes(b)) == digit_pairs(b),
        digit_pairs(b).len() == 2 * b.len(),
        forall|i: int|
            0 <= i < b.len() ==> digit_pairs(b)[2 * i] == #[trigger] byte_hex(b[i])[0]
                && digit_pairs(b)[2 * i + 1] == byte_hex(b[i])[1],
    decreases b.len(),
{
    if b.len() > 0 {
        let p = b.drop_last();
        lemma_digit_pairs(p);
        lemma_byte_hex(b.last());
        let h = byte_hex(b.last());
        assert(forall|i: int| 0 <= i < h.len() ==> is_hex_digit(#[trigger] h[i]));
        lemma_hex_digits_only_of_digits(h);
        if b.len() == 1 {
            assert(spec_hex_bytes(b) == h);
            assert(digit_pairs(b) =~= h);
        } else {
            lemma_hex_digits_only_append(spec_hex_bytes(p), " "@);
            lemma_hex_digits_only_append(spec_hex_bytes(p) + " "@, h);
            reveal_strlit(" ");
            assert(" "@.len() == 1);
            assert(" "@.last() == ' ');
            assert(" "@.drop_last() =~= Seq::<char>::empty());
            assert(hex_digits_only(" "@.drop_last()) =~= Seq::<char>::empty());
            assert(!is_hex_digit(' '));
            assert(hex_digits_only(" "@) =~= Seq::<char>::empty());
        }
        assert forall|i: int| 0 <= i < b.len() implies digit_pairs(b)[2 * i] == #[trigger] byte_hex(b[i])[0]
            && digit_pairs(b)[2 * i + 1] == byte_hex(b[i])[1] by {
            assert(digit_pairs(b) == digit_pairs(p) + h);
            if i < b.len() - 1 {
                assert(b[i] == p[i]);
                assert(digit_pairs(p)[2 * i] == byte_hex(p[i])[0]);
                assert(digit_pairs(p)[2 * i + 1] == byte_hex(p[i])[1]);
            } else {
                assert(b[i] == b.last());
                assert(digit_pairs(p).len() == 2 * i);
            }
        }
    }
}

proof fn lemma_hex_bytes_chars(b: Seq<u8>)
    ensures
        forall|i: int|
            0 <= i < spec_hex_bytes(b).len() ==> is_hex_digit(#[trigger] spec_hex_bytes(b)[i]) || spec_hex_bytes(
                b,
            )[i] == ' ',
    decreases b.len(),
{
    if b.len() > 0 {
        lemma_byte_hex(b.last());
        lemma_byte_hex(b[0]);
        if b.len() > 1 {
            let p = b.drop_last();
            lemma_hex_bytes_chars(p);
            reveal_strlit(" ");
            let h = byte_hex(b.last());
            let s = spec_hex_bytes(b);
            assert(s == spec_hex_bytes(p) + " "@ + h);
            assert forall|i: int| 0 <= i < s.len() implies is_hex_digit(#[trigger] s[i]) || s[i] == ' ' by {
                let n = spec_hex_bytes(p).len() as int;
                if i < n {
                    assert(s[i] == spec_hex_bytes(p)[i]);
                } else if i == n {
                    assert(s[i] == ' ');
                } else {
                    assert(s[i] == h[i - n - 1]);
                }
            }
        } else {
            assert(spec_hex_bytes(b) == byte_hex(b[0]));
        }
    }
}

/// Reading back the hex text of bytes gives the bytes.
pub proof fn law_hex_roundtrip(b: Seq<u8>)
    ensures
        spec_parse_hex(spec_hex_bytes(b)) == Ok::<Seq<u8>, HexError>(b),
{
    lemma_hex_bytes_chars(b);
    lemma_first_invalid_none(spec_hex_bytes(b));
    lemma_digit_pairs(b);
    let d = digit_pairs(b);
    assert(d.len() % 2 == 0);
    assert forall|i: int| 0 <= i < b.len() implies #[trigger] bytes_of_digit_pairs(d)[i] == b[i] by {
        lemma_byte_hex(b[i]);
    }
    assert(bytes_of_digit_pairs(d) =~= b);
}

} // verus!
