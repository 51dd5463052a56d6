//! The certificate authority of the proxy: how it is made and loaded, the certificates that it signs for
//! hosts, those at hand, and the files that it keeps.
use rcgen::{BasicConstraints, CertificateParams, DnType, IsCa, Issuer, KeyPair, KeyUsagePurpose};
use time::{Duration, OffsetDateTime};
use vstd::prelude::*;
use vstd::utf8::{encode_utf8, is_ascii_chars};
use crate::{assoc, text};

verus! {

broadcast use vstd::string::group_string_axioms;

/// How many certificates of hosts are kept at hand.
pub const LEAF_CACHE_MAX: usize = 512;

/// The common name of the authority.
pub const CA_COMMON_NAME: &'static str = "TraeDeviceProxyCA";

/// How many days a certificate is good for.
pub const VALID_DAYS: i64 = 3650;

/// The serial number of a certificate, by the time in nanoseconds and how many there were before.
pub fn next_serial(nanos: u64, counter: u64) -> (r: u64)
    ensures
        r == nanos ^ (counter << 24),
{
    nanos ^ (counter << 24)
}

/// Two certificates of one moment have different serial numbers.
pub proof fn serials_of_one_moment_differ(nanos: u64, a: u64, b: u64)
    requires
        a != b,
        a < 0x100_0000_0000,
        b < 0x100_0000_0000,
    ensures
        nanos ^ (a << 24) != nanos ^ (b << 24),
{
    assert(nanos ^ (a << 24) != nanos ^ (b << 24)) by (bit_vector)
        requires
            a != b,
            a < 0x100_0000_0000,
            b < 0x100_0000_0000,
    ;
}

/// What a key may be used for.
#[derive(Clone, Copy, PartialEq, Eq, Structural, Debug)]
pub enum KeyUse {
    /// To sign certificates.
    Certificates,
    /// To sign lists of revoked certificates.
    Revocations,
}

/// What a certificate is to say. Times are seconds since 1970.
pub struct CertPlan {
    pub common_name: String,
    pub names: Vec<String>,
    pub not_before: i64,
    pub not_after: i64,
    /// Whether it is an authority, with as many others below it as there may be.
    pub authority: bool,
    pub uses: Vec<KeyUse>,
    /// Whether it names the key of the authority that signs it.
    pub names_authority_key: bool,
    pub serial: u64,
}

/// The model of what a certificate is to say.
#[verifier::ext_equal]
pub struct CertV {
    pub common_name: Seq<char>,
    pub names: Seq<Seq<char>>,
    pub not_before: int,
    pub not_after: int,
    pub authority: bool,
    pub uses: Seq<KeyUse>,
    pub names_authority_key: bool,
    pub serial: u64,
}

impl View for CertPlan {
    type V = CertV;

    open spec fn view(&self) -> CertV {
        CertV {
            common_name: self.common_name@,
            names: text::texts(self.names@),
            not_before: self.not_before as int,
            not_after: self.not_after as int,
            authority: self.authority,
            uses: self.uses@,
            names_authority_key: self.names_authority_key,
            serial: self.serial,
        }
    }
}

/// Whether a certificate can hold a time: whether it lies in the years from 0 to 9999.
pub open spec fn is_dated(secs: int) -> bool {
    -62_167_219_200 <= secs <= 253_402_300_799
}

/// Whether all times of a certificate that is made now can be written.
pub open spec fn is_now(now: int) -> bool {
    is_dated(now - 86400) && is_dated(now + VALID_DAYS * 86400)
}

/// Whether a certificate can be written: its times lie in the years that can be, and its names are
/// ASCII.
pub open spec fn can_be_written(cert: CertV) -> bool {
    &&& is_dated(cert.not_before)
    &&& is_dated(cert.not_after)
    &&& forall|i: int| 0 <= i < cert.names.len() ==> is_ascii_chars(#[trigger] cert.names[i])
}

/// What the certificate of a host says: its name, and that it is good for ten years from the day
/// before.
pub open spec fn leaf_cert(host: Seq<char>, now: int, serial: u64) -> CertV {
    CertV {
        common_name: host,
        names: seq![host],
        not_before: now - 86400,
        not_after: now - 86400 + VALID_DAYS * 86400,
        authority: false,
        uses: Seq::empty(),
        names_authority_key: true,
        serial,
    }
}

/// What the certificate of the authority says: its name, and that it is good from the day before on,
/// for ten years from now.
pub open spec fn ca_cert(now: int, serial: u64) -> CertV {
    CertV {
        common_name: CA_COMMON_NAME@,
        names: Seq::empty(),
        not_before: now - 86400,
        not_after: now + VALID_DAYS * 86400,
        authority: true,
        uses: seq![KeyUse::Certificates, KeyUse::Revocations],
        names_authority_key: false,
        serial,
    }
}

/// What the certificate of a host is to say.
pub fn leaf_plan(host: &str, now: i64, serial: u64) -> (r: CertPlan)
    requires
        is_now(now as int),
    ensures
        r@ == leaf_cert(host@, now as int, serial),
{
    let mut names: Vec<String> = Vec::new();
    names.push(host.to_owned());
    let r = CertPlan {
        common_name: host.to_owned(),
        names,
        not_before: now - 86400,
        not_after: now - 86400 + VALID_DAYS * 86400,
        authority: false,
        uses: Vec::new(),
        names_authority_key: true,
        serial,
    };
    proof {
        assert(r@ =~~= leaf_cert(host@, now as int, serial));
    }
    r
}

/// What the certificate of the authority is to say.
pub fn ca_plan(now: i64, serial: u64) -> (r: CertPlan)
    requires
        is_now(now as int),
    ensures
        r@ == ca_cert(now as int, serial),
{
    let mut uses: Vec<KeyUse> = Vec::new();
    uses.push(KeyUse::Certificates);
    uses.push(KeyUse::Revocations);
    let r = CertPlan {
        common_name: CA_COMMON_NAME.to_owned(),
        names: Vec::new(),
        not_before: now - 86400,
        not_after: now + VALID_DAYS * 86400,
        authority: true,
        uses,
        names_authority_key: false,
        serial,
    };
    proof {
        assert(r@ =~~= ca_cert(now as int, serial));
    }
    r
}

/// The name for what `rcgen::KeyPair::from_pem` reports of a key in PEM; nothing where it reads it.
pub uninterp spec fn key_fault(key_pem: Seq<char>) -> Option<Seq<char>>;

/// The name for the bytes that `rcgen::KeyPair::serialize_der` gives of a key that was read.
pub uninterp spec fn key_bytes(key_pem: Seq<char>) -> Seq<u8>;

/// The name for what `rcgen::Issuer::from_ca_cert_pem` reports of a certificate in PEM; nothing where it
/// reads it. The key that stands beside the certificate plays no part in it.
pub uninterp spec fn cert_fault(cert_pem: Seq<char>) -> Option<Seq<char>>;

/// The name for whether `rcgen` can write the subject of a certificate that `Issuer::from_ca_cert_pem`
/// reads into another certificate. It panics where it cannot.
pub uninterp spec fn subject_fits(cert_pem: Seq<char>) -> bool;

/// The name for the texts that `Debug` may show of the authority that `Issuer::from_ca_cert_pem` reads out
/// of a certificate. There may be several: the parts of a subject are shown in the order of a hash table.
pub uninterp spec fn is_shown(shown: Seq<char>, cert_pem: Seq<char>) -> bool;

/// The name for the certificates, in PEM and DER, that `rcgen::CertificateParams::self_signed` may give
/// of a key. There are many: a signature takes a number by chance.
pub uninterp spec fn is_own(pem: Seq<char>, der: Seq<u8>, key_pem: Seq<char>, cert: CertV) -> bool;

/// The name for the certificates, in DER, that `rcgen::CertificateParams::signed_by` may give for an
/// authority and its key. There are many: a signature takes a number by chance.
pub uninterp spec fn is_signed(der: Seq<u8>, cert_pem: Seq<char>, key_pem: Seq<char>, cert: CertV) -> bool;

/// The name for what `rcgen::KeyPair::generate` may report where no key is made; it rests on the machine.
pub uninterp spec fn is_key_error(cause: Seq<char>) -> bool;

/// The name for what `rcgen::CertificateParams::self_signed` may report where a key does not sign its own
/// certificate; it rests on the machine.
pub uninterp spec fn is_own_error(cause: Seq<char>, key_pem: Seq<char>, cert: CertV) -> bool;

/// The name for what `rcgen::CertificateParams::signed_by` may report where an authority does not sign a
/// certificate; it rests on the machine.
pub uninterp spec fn is_sign_error(
    cause: Seq<char>,
    cert_pem: Seq<char>,
    key_pem: Seq<char>,
    cert: CertV,
) -> bool;

/// `rcgen::KeyPair::generate` and `serialize_pem`: a new key in PEM. It is made by chance, so no more is
/// said of it than that `KeyPair::from_pem` reads it.
#[verifier::external_body]
fn new_key() -> (r: Result<String, String>)
    ensures
        r matches Ok(pem) ==> key_fault(pem@) is None,
        r matches Err(e) ==> is_key_error(e@),
{
    KeyPair::generate().map(|k| k.serialize_pem()).map_err(|e| e.to_string())
}

/// `rcgen::KeyPair::from_pem`: what it reports of a key, and nothing where it reads it.
#[verifier::external_body]
fn read_key(key_pem: &str) -> (r: Option<String>)
    ensures
        text::opt_text(r) == key_fault(key_pem@),
{
    KeyPair::from_pem(key_pem).err().map(|e| e.to_string())
}

/// `rcgen::KeyPair::serialize_der`: the bytes of a key that is read.
#[verifier::external_body]
fn write_key(key_pem: &str) -> (r: Vec<u8>)
    requires
        key_fault(key_pem@) is None,
    ensures
        r@ == key_bytes(key_pem@),
{
    KeyPair::from_pem(key_pem).unwrap().serialize_der()
}

/// `rcgen::Issuer::from_ca_cert_pem`: what it reports of a certificate, or how `Debug` shows the
/// authority that was read. All parts of its subject are shown there, each with its type. All of them
/// can be written again but a printable string with a question mark, and a type whose first number is
/// over two or which has no second one.
#[verifier::external_body]
fn read_cert(cert_pem: &str, key_pem: &str) -> (r: Result<String, String>)
    requires
        key_fault(key_pem@) is None,
    ensures
        r is Ok == cert_fault(cert_pem@) is None,
        r matches Err(e) ==> cert_fault(cert_pem@) == Some(e@),
        r matches Ok(shown) ==> is_shown(shown@, cert_pem@),
        r matches Ok(shown) ==> is_plain(shown@) ==> subject_fits(cert_pem@),
{
    let key = KeyPair::from_pem(key_pem).map_err(|e| e.to_string())?;
    Issuer::from_ca_cert_pem(cert_pem, key).map(|i| format!("{:?}", i)).map_err(|e| e.to_string())
}

/// `rcgen::CertificateParams::self_signed`: a certificate of a key, in PEM and DER, signed with the key
/// itself.
#[verifier::external_body]
fn sign_own(plan: &CertPlan, key_pem: &str) -> (r: Result<(String, Vec<u8>), String>)
    requires
        plan.authority,
        plan.names@.len() == 0,
        can_be_written(plan@),
        key_fault(key_pem@) is None,
    ensures
        r matches Ok(c) ==> is_own(c.0@, c.1@, key_pem@, plan@),
        r matches Err(e) ==> is_own_error(e@, key_pem@, plan@),
{
    let key = KeyPair::from_pem(key_pem).unwrap();
    let mut params = CertificateParams::default();
    params.distinguished_name.push(DnType::CommonName, &plan.common_name);
    params.not_before = OffsetDateTime::UNIX_EPOCH + Duration::seconds(plan.not_before);
    params.not_after = OffsetDateTime::UNIX_EPOCH + Duration::seconds(plan.not_after);
    params.is_ca = IsCa::Ca(BasicConstraints::Unconstrained);
    params.key_usages = plan.uses.iter().map(|u| match u {
        KeyUse::Certificates => KeyUsagePurpose::KeyCertSign,
        KeyUse::Revocations => KeyUsagePurpose::CrlSign,
    }).collect();
    params.serial_number = Some(plan.serial.into());
    params.use_authority_key_identifier_extension = plan.names_authority_key;
    params.self_signed(&key).map(|c| (c.pem(), c.der().to_vec())).map_err(|e| e.to_string())
}

/// `rcgen::CertificateParams::signed_by`: a certificate of an authority's key, in DER, signed by the
/// authority.
#[verifier::external_body]
fn sign_leaf(plan: &CertPlan, cert_pem: &str, key_pem: &str) -> (r: Result<Vec<u8>, String>)
    requires
        !plan.authority,
        plan.uses@.len() == 0,
        can_be_written(plan@),
        key_fault(key_pem@) is None,
        cert_fault(cert_pem@) is None,
        subject_fits(cert_pem@),
    ensures
        r matches Ok(der) ==> is_signed(der@, cert_pem@, key_pem@, plan@),
        r matches Err(e) ==> is_sign_error(e@, cert_pem@, key_pem@, plan@),
{
    let issuer = Issuer::from_ca_cert_pem(cert_pem, KeyPair::from_pem(key_pem).unwrap()).unwrap();
    let mut params = CertificateParams::new(plan.names.clone()).unwrap();
    params.distinguished_name.push(DnType::CommonName, &plan.common_name);
    params.not_before = OffsetDateTime::UNIX_EPOCH + Duration::seconds(plan.not_before);
    params.not_after = OffsetDateTime::UNIX_EPOCH + Duration::seconds(plan.not_after);
    params.is_ca = IsCa::NoCa;
    params.serial_number = Some(plan.serial.into());
    params.use_authority_key_identifier_extension = plan.names_authority_key;
    params.signed_by(issuer.key(), &issuer).map(|c| c.der().to_vec()).map_err(|e| e.to_string())
}

/// How a printable string is shown.
pub const SHOWN_PRINTABLE: &'static str = "PrintableString(\"";

/// How a type that has no name is shown.
pub const SHOWN_TYPE: &'static str = "CustomDnType([";

/// Whether the character at `i` stands in a string: behind an odd number of quotes. A quote in a string
/// is shown behind a backslash, and so is a backslash.
pub open spec fn is_quoted(shown: Seq<char>, i: int) -> bool
    decreases i,
{
    if i <= 0 || i > shown.len() {
        false
    } else if shown[i - 1] == '"' && !is_escaped(shown, i - 1) {
        !is_quoted(shown, i - 1)
    } else {
        is_quoted(shown, i - 1)
    }
}

/// Whether the character at `i` stands behind a backslash that belongs to it.
pub open spec fn is_escaped(shown: Seq<char>, i: int) -> bool
    decreases i,
{
    0 < i <= shown.len() && shown[i - 1] == '\\' && !is_escaped(shown, i - 1)
}

/// Whether a question mark stands in the string that begins at `i`. A printable string holds no quotes.
pub open spec fn asks(shown: Seq<char>, i: int) -> bool {
    exists|j: int|
        i <= j < shown.len() && #[trigger] shown[j] == '?' && forall|k: int|
            i <= k < j ==> #[trigger] shown[k] != '"'
}

/// Whether the numbers of a type, which begin at `i`, are those of one that can be written: a first
/// number of two at the most, and others after it.
pub open spec fn is_arc(shown: Seq<char>, i: int) -> bool {
    i + 1 < shown.len() && (shown[i] == '0' || shown[i] == '1' || shown[i] == '2') && shown[i + 1] == ','
}

/// Whether what stands at `i`, outside of all strings, cannot be written.
pub open spec fn is_odd_at(shown: Seq<char>, i: int) -> bool {
    !is_quoted(shown, i) && {
        ||| text::occurs_at(shown, SHOWN_PRINTABLE@, i) && asks(shown, i + SHOWN_PRINTABLE@.len())
        ||| text::occurs_at(shown, SHOWN_TYPE@, i) && !is_arc(shown, i + SHOWN_TYPE@.len())
    }
}

/// Whether all of a subject can be written again, by how it is shown.
pub open spec fn is_plain(shown: Seq<char>) -> bool {
    forall|i: int| 0 <= i < shown.len() ==> !#[trigger] is_odd_at(shown, i)
}

/// Whether a question mark stands in the string that begins at `i`.
fn asks_from(shown: &[char], i: usize) -> (r: bool)
    ensures
        r == asks(shown@, i as int),
{
    let mut j: usize = i;
    while j < shown.len()
        invariant
            i <= j,
            forall|k: int| i <= k < j && k < shown@.len() ==> shown@[k] != '"' && shown@[k] != '?',
        decreases shown@.len() - j,
    {
        if shown[j] == '?' {
            assert(shown@[j as int] == '?');
            return true;
        }
        if shown[j] == '"' {
            return false;
        }
        j += 1;
    }
    false
}

/// Whether what stands at `i`, outside of all strings, cannot be written.
fn odd_at(s: &[char], i: usize) -> (r: bool)
    requires
        i < s@.len(),
        !is_quoted(s@, i as int),
    ensures
        r == is_odd_at(s@, i as int),
{
    let printable = text::chars_of(SHOWN_PRINTABLE);
    if printable.len() <= s.len() - i && text::chars_at(s, &printable, i) && asks_from(s, i + printable.len()) {
        return true;
    }
    let named = text::chars_of(SHOWN_TYPE);
    if named.len() <= s.len() - i && text::chars_at(s, &named, i) {
        let at: usize = i + named.len();
        return !(s.len() - at > 1 && (s[at] == '0' || s[at] == '1' || s[at] == '2') && s[at + 1] == ',');
    }
    false
}

/// What the error says where the subject of the authority cannot be written.
pub const LEAF_SUBJECT: &'static str = "authority subject cannot be written";

/// Whether an authority may sign, by how it is shown: where all of its subject can be written again.
pub fn may_sign(shown: &str) -> (r: Result<(), String>)
    ensures
        r is Ok == is_plain(shown@),
        r matches Err(e) ==> e@ == LEAF_SUBJECT@,
{
    let s = text::chars_of(shown);
    let mut quoted = false;
    let mut escaped = false;
    let mut i: usize = 0;
    while i < s.len()
        invariant
            i <= s@.len(),
            s@ == shown@,
            quoted == is_quoted(s@, i as int),
            escaped == is_escaped(s@, i as int),
            forall|k: int| 0 <= k < i ==> !#[trigger] is_odd_at(s@, k),
        decreases s@.len() - i,
    {
        if !quoted && odd_at(&s, i) {
            assert(is_odd_at(s@, i as int));
            return Err(LEAF_SUBJECT.to_owned());
        }
        if s[i] == '"' && !escaped {
            quoted = !quoted;
        }
        escaped = s[i] == '\\' && !escaped;
        i += 1;
    }
    Ok(())
}

/// Where an authority is not had.
#[derive(Clone, Copy, PartialEq, Eq, Structural, Debug)]
pub enum CaFault {
    /// Its key is not made.
    MakeKey,
    /// Its certificate is not signed.
    Sign,
    /// Its certificate, just signed, is not read.
    ReadBack,
    /// Its key is not read from its file.
    ReadKey,
    /// Its certificate is not read from its file.
    ReadCert,
}

/// What an error begins with.
pub open spec fn fault_head(fault: CaFault) -> Seq<char> {
    match fault {
        CaFault::MakeKey => "生成 CA 密钥失败: "@,
        CaFault::Sign => "自签 CA 失败: "@,
        CaFault::ReadBack => "构建 CA 签发器失败: "@,
        CaFault::ReadKey => "解析 CA 私钥失败: "@,
        CaFault::ReadCert => "解析 CA 证书失败: "@,
    }
}

/// The error that says where an authority is not had, and why.
pub fn ca_error(fault: CaFault, cause: &str) -> (r: String)
    ensures
        r@ == fault_head(fault) + cause@,
{
    match fault {
        CaFault::MakeKey => text::cat("生成 CA 密钥失败: ", cause),
        CaFault::Sign => text::cat("自签 CA 失败: ", cause),
        CaFault::ReadBack => text::cat("构建 CA 签发器失败: ", cause),
        CaFault::ReadKey => text::cat("解析 CA 私钥失败: ", cause),
        CaFault::ReadCert => text::cat("解析 CA 证书失败: ", cause),
    }
}

/// What is reported where an authority is loaded from its files; nothing where it is had. Its key is
/// read first.
pub open spec fn load_fault(cert_pem: Seq<char>, key_pem: Seq<char>) -> Option<Seq<char>> {
    match key_fault(key_pem) {
        Some(cause) => Some(fault_head(CaFault::ReadKey) + cause),
        None => match cert_fault(cert_pem) {
            Some(cause) => Some(fault_head(CaFault::ReadCert) + cause),
            None => None,
        },
    }
}

/// Loads an authority from what its files hold.
pub fn load_ca(cert_pem: &str, key_pem: &str) -> (r: Result<(), String>)
    ensures
        match r {
            Ok(_) => load_fault(cert_pem@, key_pem@) is None,
            Err(e) => load_fault(cert_pem@, key_pem@) == Some(e@),
        },
{
    if let Some(cause) = read_key(key_pem) {
        return Err(ca_error(CaFault::ReadKey, cause.as_str()));
    }
    match read_cert(cert_pem, key_pem) {
        Ok(_) => Ok(()),
        Err(cause) => Err(ca_error(CaFault::ReadCert, cause.as_str())),
    }
}

/// The authority of a key and its certificate, exactly where the certificate reads back; else why it
/// does not.
pub fn made_of(key_pem: String, cert_pem: String, cert_der: Vec<u8>) -> (r: Result<MadeCa, String>)
    requires
        key_fault(key_pem@) is None,
    ensures
        match cert_fault(cert_pem@) {
            None => r is Ok && r->Ok_0.key_pem == key_pem && r->Ok_0.cert_pem == cert_pem && r->Ok_0.cert_der
                == cert_der,
            Some(cause) => r is Err && r->Err_0@ == fault_head(CaFault::ReadBack) + cause,
        },
{
    match read_cert(cert_pem.as_str(), key_pem.as_str()) {
        Ok(_) => Ok(MadeCa { cert_pem, key_pem, cert_der }),
        Err(cause) => Err(ca_error(CaFault::ReadBack, cause.as_str())),
    }
}

/// Whether an error says that no key was made.
pub open spec fn is_unmade(e: Seq<char>) -> bool {
    exists|cause: Seq<char>| #[trigger] is_key_error(cause) && e == fault_head(CaFault::MakeKey) + cause
}

/// Whether an error says that a key did not sign its own certificate.
pub open spec fn is_unsigned(e: Seq<char>, cert: CertV) -> bool {
    exists|cause: Seq<char>, key_pem: Seq<char>| #[trigger]
        is_own_error(cause, key_pem, cert) && key_fault(key_pem) is None && e == fault_head(CaFault::Sign) + cause
}

/// Whether an error says that a certificate which was signed does not read back.
pub open spec fn is_unread(e: Seq<char>, cert: CertV) -> bool {
    exists|pem: Seq<char>, der: Seq<u8>, key_pem: Seq<char>| #[trigger]
        is_own(pem, der, key_pem, cert) && key_fault(key_pem) is None && cert_fault(pem) is Some && e == fault_head(
            CaFault::ReadBack,
        ) + cert_fault(pem)->Some_0
}

/// Makes an authority: a new key, and a certificate that it signs itself, which is read back. Which key
/// it is, and which signature, is left to chance.
pub fn generate_ca(now: i64, serial: u64) -> (r: Result<MadeCa, String>)
    requires
        is_now(now as int),
    ensures
        ({
            let cert = ca_cert(now as int, serial);
            match r {
                Ok(made) => {
                    &&& is_own(made.cert_pem@, made.cert_der@, made.key_pem@, cert)
                    &&& load_fault(made.cert_pem@, made.key_pem@) is None
                },
                Err(e) => is_unmade(e@) || is_unsigned(e@, cert) || is_unread(e@, cert),
            }
        }),
{
    let ghost cert = ca_cert(now as int, serial);
    let plan = ca_plan(now, serial);
    assert(text::texts(plan.names@).len() == 0);
    let key_pem = match new_key() {
        Ok(pem) => pem,
        Err(cause) => {
            assert(is_key_error(cause@));
            return Err(ca_error(CaFault::MakeKey, cause.as_str()));
        },
    };
    let (cert_pem, cert_der) = match sign_own(&plan, key_pem.as_str()) {
        Ok(signed) => signed,
        Err(cause) => {
            assert(is_own_error(cause@, key_pem@, cert));
            return Err(ca_error(CaFault::Sign, cause.as_str()));
        },
    };
    assert(is_own(cert_pem@, cert_der@, key_pem@, cert));
    made_of(key_pem, cert_pem, cert_der)
}

/// The error where a host cannot stand in a certificate.
pub const LEAF_HOST: &'static str = "leaf certificate params";

/// What the error begins with where a certificate of a host is not signed.
pub const LEAF_SIGN: &'static str = "failed to sign leaf certificate: ";

/// What comes of the certificate of a host, by how its signing went.
pub fn leaf_of(signed: Result<Vec<u8>, String>, key: Vec<u8>) -> (r: Result<(Vec<u8>, Vec<u8>), String>)
    ensures
        match signed {
            Ok(cert) => r == Ok::<(Vec<u8>, Vec<u8>), String>((cert, key)),
            Err(cause) => r is Err && r->Err_0@ == LEAF_SIGN@ + cause@,
        },
{
    match signed {
        Ok(cert) => Ok((cert, key)),
        Err(cause) => Err(text::cat(LEAF_SIGN, cause.as_str())),
    }
}

/// Whether an authority may be shown as one that signs, or as one that does not.
pub open spec fn is_shown_as(cert_pem: Seq<char>, signs: bool) -> bool {
    exists|shown: Seq<char>| #[trigger] is_shown(shown, cert_pem) && is_plain(shown) == signs
}

/// Whether an error says that an authority which may sign did not sign a certificate.
pub open spec fn is_leaf_error(e: Seq<char>, cert_pem: Seq<char>, key_pem: Seq<char>, cert: CertV) -> bool {
    exists|cause: Seq<char>| #[trigger]
        is_sign_error(cause, cert_pem, key_pem, cert) && e == LEAF_SIGN@ + cause
}

/// Makes the certificate of a host, signed by the authority: the bytes of the certificate, and those of
/// its key, which is the authority's. A host that is not ASCII cannot stand in one, and an authority
/// whose subject cannot be written signs none.
pub fn make_leaf(cert_pem: &str, key_pem: &str, host: &str, now: i64, serial: u64) -> (r: Result<
    (Vec<u8>, Vec<u8>),
    String,
>)
    requires
        is_now(now as int),
    ensures
        ({
            let cert = leaf_cert(host@, now as int, serial);
            match load_fault(cert_pem@, key_pem@) {
                Some(e) => r is Err && r->Err_0@ == e,
                None if !is_ascii_chars(host@) => r is Err && r->Err_0@ == LEAF_HOST@,
                None => match r {
                    Ok(leaf) => {
                        &&& is_shown_as(cert_pem@, true)
                        &&& is_signed(leaf.0@, cert_pem@, key_pem@, cert)
                        &&& leaf.1@ == key_bytes(key_pem@)
                    },
                    Err(e) => {
                        ||| e@ == LEAF_SUBJECT@ && is_shown_as(cert_pem@, false)
                        ||| is_leaf_error(e@, cert_pem@, key_pem@, cert) && is_shown_as(cert_pem@, true)
                    },
                },
            }
        }),
{
    if let Some(cause) = read_key(key_pem) {
        return Err(ca_error(CaFault::ReadKey, cause.as_str()));
    }
    let shown = match read_cert(cert_pem, key_pem) {
        Ok(shown) => shown,
        Err(cause) => {
            return Err(ca_error(CaFault::ReadCert, cause.as_str()));
        },
    };
    if !host.is_ascii() {
        return Err(LEAF_HOST.to_owned());
    }
    assert(is_shown(shown@, cert_pem@));
    if let Err(e) = may_sign(shown.as_str()) {
        return Err(e);
    }
    let plan = leaf_plan(host, now, serial);
    let signed = sign_leaf(&plan, cert_pem, key_pem);
    assert(signed matches Err(cause) ==> is_sign_error(cause@, cert_pem@, key_pem@, plan@));
    leaf_of(signed, write_key(key_pem))
}

/// What was made for hosts and is at hand.
pub struct LeafCache<V> {
    pub entries: Vec<(String, V)>,
}

impl<V> LeafCache<V> {
    /// Whether no host occurs twice, and there are no more than may be kept.
    pub open spec fn wf(self) -> bool {
        &&& self.entries@.len() <= LEAF_CACHE_MAX
        &&& assoc::distinct(self.entries@)
    }

    /// What is at hand for a host.
    pub open spec fn at(self, host: Seq<char>) -> Option<V> {
        assoc::lookup(self.entries@, host)
    }

    /// Nothing at hand.
    pub fn new() -> (r: LeafCache<V>)
        ensures
            r.wf(),
            r.entries@.len() == 0,
    {
        LeafCache { entries: Vec::new() }
    }

    /// What is at hand for a host.
    pub fn get(&self, host: &str) -> (r: Option<&V>)
        ensures
            match r {
                Some(v) => self.at(host@) == Some(*v),
                None => self.at(host@) is None,
            },
    {
        assoc::find(&self.entries, host)
    }

    /// Keeps what was made for a host. Where there is no room, everything else goes.
    pub fn insert(&mut self, host: &str, val: V)
        requires
            old(self).wf(),
        ensures
            final(self).wf(),
            final(self).at(host@) == Some(val),
            forall|h: Seq<char>|
                h != host@ ==> #[trigger] final(self).at(h) == (if old(self).entries@.len() >= LEAF_CACHE_MAX {
                    None
                } else {
                    old(self).at(h)
                }),
    {
        if self.entries.len() >= LEAF_CACHE_MAX {
            self.entries = Vec::new();
        }
        assoc::set(&mut self.entries, host, val);
    }
}

/// Whether a file is a certificate or key of a host that was once kept on disk.
pub open spec fn is_legacy_leaf(name: Seq<char>) -> bool {
    text::has_prefix(name, "leaf_"@) && (text::has_suffix(name, ".crt"@) || text::has_suffix(name, ".key"@))
}

/// Whether a file is a certificate or key of a host that was once kept on disk.
pub fn legacy_leaf(name: &str) -> (r: bool)
    ensures
        r == is_legacy_leaf(name@),
{
    text::starts_with(name, "leaf_") && (text::ends_with(name, ".crt") || text::ends_with(name, ".key"))
}

/// The files of the authority are never taken for those of hosts.
pub proof fn authority_files_are_kept()
    ensures
        !is_legacy_leaf("ca.crt"@),
        !is_legacy_leaf("ca.key"@),
        !is_legacy_leaf("ca.cer"@),
{
    reveal_strlit("ca.crt");
    reveal_strlit("ca.key");
    reveal_strlit("ca.cer");
    reveal_strlit("leaf_");
    assert("ca.crt"@[0] == 'c' && "ca.key"@[0] == 'c' && "ca.cer"@[0] == 'c');
    assert("leaf_"@[0] == 'l');
    assert("ca.crt"@.take(5)[0] == 'c');
    assert("ca.key"@.take(5)[0] == 'c');
    assert("ca.cer"@.take(5)[0] == 'c');
}

/// Where the authority comes from.
#[derive(Clone, Copy, PartialEq, Eq, Structural, Debug)]
pub enum CaSource {
    /// From its files, which trusted machines know already.
    Load,
    /// It is made, and its files are written.
    Generate,
}

/// Where the authority comes from: from its files where both its certificate and its key are there.
pub fn ensure_ca(cert_exists: bool, key_exists: bool) -> (r: CaSource)
    ensures
        r == CaSource::Load <==> cert_exists && key_exists,
{
    if cert_exists && key_exists {
        CaSource::Load
    } else {
        CaSource::Generate
    }
}

/// An authority that has been made, as its files hold it.
pub struct MadeCa {
    pub cert_pem: String,
    pub key_pem: String,
    pub cert_der: Vec<u8>,
}

/// A file that is written.
pub struct CaFile {
    pub name: &'static str,
    pub bytes: Vec<u8>,
}

/// The model of an authority's directory: what its files hold, where they are there.
#[verifier::ext_equal]
pub struct CaDirV {
    pub crt: Option<Seq<u8>>,
    pub key: Option<Seq<u8>>,
    pub cer: Option<Seq<u8>>,
}

/// The directory once a file is written.
pub open spec fn with_file(dir: CaDirV, f: CaFile) -> CaDirV {
    if f.name@ == "ca.crt"@ {
        CaDirV { crt: Some(f.bytes@), ..dir }
    } else if f.name@ == "ca.key"@ {
        CaDirV { key: Some(f.bytes@), ..dir }
    } else if f.name@ == "ca.cer"@ {
        CaDirV { cer: Some(f.bytes@), ..dir }
    } else {
        dir
    }
}

/// The directory once files are written, one after another.
pub open spec fn with_files(dir: CaDirV, files: Seq<CaFile>) -> CaDirV
    decreases files.len(),
{
    if files.len() == 0 {
        dir
    } else {
        with_file(with_files(dir, files.drop_last()), files.last())
    }
}

/// Where the authority of a directory comes from.
pub open spec fn source_of(dir: CaDirV) -> CaSource {
    if dir.crt is Some && dir.key is Some {
        CaSource::Load
    } else {
        CaSource::Generate
    }
}

/// The directory after its authority was loaded, or made anew.
pub open spec fn dir_after(dir: CaDirV, crt: Seq<u8>, key: Seq<u8>, cer: Seq<u8>) -> CaDirV {
    match source_of(dir) {
        CaSource::Load => dir,
        CaSource::Generate => CaDirV { crt: Some(crt), key: Some(key), cer: Some(cer) },
    }
}

/// The files that are written of an authority that was made. An authority that was loaded is left as it
/// is: nothing is written of it.
pub fn files_to_write(made: MadeCa) -> (r: Vec<CaFile>)
    ensures
        forall|dir: CaDirV|
            source_of(dir) is Generate ==> #[trigger] with_files(dir, r@) == dir_after(
                dir,
                encode_utf8(made.cert_pem@),
                encode_utf8(made.key_pem@),
                made.cert_der@,
            ),
{
    let mut r: Vec<CaFile> = Vec::new();
    let ghost (crt, key, cer) = (encode_utf8(made.cert_pem@), encode_utf8(made.key_pem@), made.cert_der@);
    r.push(CaFile { name: "ca.crt", bytes: vstd::slice::slice_to_vec(made.cert_pem.as_str().as_bytes()) });
    r.push(CaFile { name: "ca.key", bytes: vstd::slice::slice_to_vec(made.key_pem.as_str().as_bytes()) });
    r.push(CaFile { name: "ca.cer", bytes: made.cert_der });
    proof {
        reveal_strlit("ca.crt");
        reveal_strlit("ca.key");
        reveal_strlit("ca.cer");
        assert("ca.crt"@[3] == 'c' && "ca.key"@[3] == 'k' && "ca.cer"@[3] == 'c');
        assert("ca.crt"@[4] == 'r' && "ca.cer"@[4] == 'e');
        assert forall|dir: CaDirV| source_of(dir) is Generate implies #[trigger] with_files(dir, r@) == dir_after(
            dir,
            crt,
            key,
            cer,
        ) by {
            reveal_with_fuel(with_files, 4);
            assert(r@.drop_last().drop_last().drop_last() =~= Seq::empty());
            assert(r@[0].name@ == "ca.crt"@ && r@[1].name@ == "ca.key"@ && r@[2].name@ == "ca.cer"@);
        }
    }
    r
}

/// Once a directory had its authority loaded or made, its certificate and key are there, and it is never
/// made again: a second time it is loaded, and no file changes.
pub proof fn authority_is_made_once(
    dir: CaDirV,
    crt: Seq<u8>,
    key: Seq<u8>,
    cer: Seq<u8>,
    crt2: Seq<u8>,
    key2: Seq<u8>,
    cer2: Seq<u8>,
)
    ensures
        ({
            let once = dir_after(dir, crt, key, cer);
            &&& once.crt is Some && once.key is Some
            &&& source_of(dir) is Generate ==> once.cer is Some
            &&& source_of(once) is Load
            &&& dir_after(once, crt2, key2, cer2) == once
        }),
{
}

// ---- what holds of certificates ----

/// A host's certificate is for the host alone, signs nothing, and holds for ten years from a day ago on.
pub proof fn leaves_are_for_their_host(host: Seq<char>, now: int, serial: u64)
    ensures
        leaf_cert(host, now, serial).common_name == host,
        leaf_cert(host, now, serial).names.len() == 1 && leaf_cert(host, now, serial).names[0] == host,
        leaf_cert(host, now, serial).not_before == now - 86400,
        leaf_cert(host, now, serial).not_after == leaf_cert(host, now, serial).not_before + 315360000,
        !leaf_cert(host, now, serial).authority && leaf_cert(host, now, serial).uses.len() == 0,
        leaf_cert(host, now, serial).names_authority_key,
        leaf_cert(host, now, serial).serial == serial,
{
}

/// The authority's certificate is for no host, signs certificates and lists of revoked ones, and holds for
/// ten years and the day before.
pub proof fn the_authority_signs_certificates(now: int, serial: u64)
    ensures
        ca_cert(now, serial).common_name == "TraeDeviceProxyCA"@,
        ca_cert(now, serial).names.len() == 0,
        ca_cert(now, serial).not_before == now - 86400,
        ca_cert(now, serial).not_after == now + 315360000,
        ca_cert(now, serial).authority,
        ca_cert(now, serial).uses == seq![KeyUse::Certificates, KeyUse::Revocations],
        !ca_cert(now, serial).names_authority_key,
        ca_cert(now, serial).serial == serial,
{
}

/// An authority is loaded where both its files are there, and a fault of its key is told before one of its
/// certificate.
pub proof fn both_files_make_an_authority(dir: CaDirV, cert_pem: Seq<char>, key_pem: Seq<char>, cause: Seq<char>)
    ensures
        source_of(dir) is Load == (dir.crt is Some && dir.key is Some),
        key_fault(key_pem) == Some(cause) ==> load_fault(cert_pem, key_pem) == Some("解析 CA 私钥失败: "@ + cause),
        key_fault(key_pem) is None && cert_fault(cert_pem) == Some(cause) ==> load_fault(cert_pem, key_pem) == Some(
            "解析 CA 证书失败: "@ + cause,
        ),
        key_fault(key_pem) is None && cert_fault(cert_pem) is None ==> load_fault(cert_pem, key_pem) is None,
{
}

/// Files are written under their own names, and a later one of a name replaces an earlier.
pub proof fn files_are_written_under_their_names(dir: CaDirV, a: Seq<CaFile>, b: Seq<CaFile>, f: CaFile)
    ensures
        with_files(dir, a + b) == with_files(with_files(dir, a), b),
        f.name@ == "ca.crt"@ ==> with_files(dir, seq![f]) == (CaDirV { crt: Some(f.bytes@), ..dir }),
        f.name@ == "ca.key"@ ==> with_files(dir, seq![f]) == (CaDirV { key: Some(f.bytes@), ..dir }),
        f.name@ == "ca.cer"@ ==> with_files(dir, seq![f]) == (CaDirV { cer: Some(f.bytes@), ..dir }),
        f.name@ != "ca.crt"@ && f.name@ != "ca.key"@ && f.name@ != "ca.cer"@ ==> with_files(dir, seq![f]) == dir,
    decreases b.len(),
{
    reveal_with_fuel(with_files, 2);
    reveal_strlit("ca.crt");
    reveal_strlit("ca.key");
    reveal_strlit("ca.cer");
    assert("ca.crt"@.len() == 6 && "ca.key"@.len() == 6 && "ca.cer"@.len() == 6);
    assert("ca.crt"@[3] != "ca.key"@[3]);
    assert("ca.crt"@[4] != "ca.cer"@[4]);
    assert("ca.key"@[3] != "ca.cer"@[3]);
    assert(seq![f].drop_last() =~= Seq::<CaFile>::empty());
    if b.len() == 0 {
        assert(a + b =~= a);
    } else {
        files_are_written_under_their_names(dir, a, b.drop_last(), f);
        assert((a + b).drop_last() =~= a + b.drop_last());
        assert((a + b).last() == b.last());
    }
}

/// Hosts' certificates of earlier versions are those files whose name starts and ends as theirs did.
pub proof fn old_leaves_are_known_by_their_names(m: Seq<char>, name: Seq<char>)
    ensures
        is_legacy_leaf("leaf_"@ + m + ".crt"@),
        is_legacy_leaf("leaf_"@ + m + ".key"@),
        !text::has_prefix(name, "leaf_"@) ==> !is_legacy_leaf(name),
        !text::has_suffix(name, ".crt"@) && !text::has_suffix(name, ".key"@) ==> !is_legacy_leaf(name),
{
    let p = "leaf_"@;
    let c = ".crt"@;
    let k = ".key"@;
    assert((p + m + c).take(p.len() as int) =~= p);
    assert((p + m + k).take(p.len() as int) =~= p);
    assert((p + m + c).skip((p + m + c).len() - c.len()) =~= c);
    assert((p + m + k).skip((p + m + k).len() - k.len()) =~= k);
}

/// A quote opens or closes where it is not escaped, and a backslash escapes what follows unless it is
/// escaped itself.
pub proof fn quotes_open_and_close(s: Seq<char>, i: int)
    requires
        0 <= i < s.len(),
    ensures
        is_escaped(s, i + 1) == (s[i] == '\\' && !is_escaped(s, i)),
        s[i] == '"' && !is_escaped(s, i) ==> is_quoted(s, i + 1) == !is_quoted(s, i),
        s[i] != '"' || is_escaped(s, i) ==> is_quoted(s, i + 1) == is_quoted(s, i),
        !is_quoted(s, 0) && !is_escaped(s, 0),
{
}

/// A subject is plain where neither mark stands outside quotes; a printable text with a question mark in it,
/// or a type that starts with no arc, is not.
pub proof fn odd_subjects_are_not_plain(s: Seq<char>, i: int, j: int)
    requires
        0 <= i < s.len(),
        !is_quoted(s, i),
    ensures
        text::occurs_at(s, "PrintableString(\""@, i) && i + 17 <= j < s.len() && s[j] == '?' && (forall|k: int|
            i + 17 <= k < j ==> #[trigger] s[k] != '"') ==> !is_plain(s),
        text::occurs_at(s, "CustomDnType(["@, i) && i + 15 < s.len() && s[i + 15] != ',' ==> !is_plain(s),
        text::occurs_at(s, "CustomDnType(["@, i) && i + 15 < s.len() && s[i + 14] != '0' && s[i + 14] != '1' && s[i + 14]
            != '2' ==> !is_plain(s),
{
    reveal_strlit("PrintableString(\"");
    reveal_strlit("CustomDnType([");
    assert("PrintableString(\""@.len() == 17);
    assert("CustomDnType(["@.len() == 14);
    if text::occurs_at(s, "PrintableString(\""@, i) && i + 17 <= j < s.len() && s[j] == '?' && (forall|k: int|
        i + 17 <= k < j ==> #[trigger] s[k] != '"') {
        assert(asks(s, i + 17));
        assert(is_odd_at(s, i));
    }
    if text::occurs_at(s, "CustomDnType(["@, i) && i + 15 < s.len() && !is_arc(s, i + 14) {
        assert(is_odd_at(s, i));
    }
}

/// A subject without either mark is plain.
pub proof fn unmarked_subjects_are_plain(s: Seq<char>)
    requires
        !text::has_text(s, "PrintableString(\""@),
        !text::has_text(s, "CustomDnType(["@),
    ensures
        is_plain(s),
{
    assert forall|i: int| 0 <= i < s.len() implies !#[trigger] is_odd_at(s, i) by {
        assert(!text::occurs_at(s, "PrintableString(\""@, i));
        assert(!text::occurs_at(s, "CustomDnType(["@, i));
    }
}

/// What went wrong with the authority is told by what was done.
pub proof fn faults_are_told_by_what_was_done(e: Seq<char>, cause: Seq<char>)
    ensures
        fault_head(CaFault::MakeKey) == "生成 CA 密钥失败: "@,
        fault_head(CaFault::Sign) == "自签 CA 失败: "@,
        fault_head(CaFault::ReadBack) == "构建 CA 签发器失败: "@,
        fault_head(CaFault::ReadKey) == "解析 CA 私钥失败: "@,
        fault_head(CaFault::ReadCert) == "解析 CA 证书失败: "@,
        is_key_error(cause) ==> is_unmade("生成 CA 密钥失败: "@ + cause),
        is_unmade(e) ==> exists|c: Seq<char>| #[trigger] is_key_error(c) && e == "生成 CA 密钥失败: "@ + c,
{
}

/// Certificates can be written where their dates have four digits of the year and their names are plain.
pub proof fn certificates_are_of_the_common_era(now: int, cert: CertV, i: int)
    ensures
        is_now(now) == (-62_167_219_200 <= now - 86400 && now + 315360000 <= 253_402_300_799),
        can_be_written(cert) ==> -62_167_219_200 <= cert.not_before <= 253_402_300_799 && -62_167_219_200
            <= cert.not_after <= 253_402_300_799,
        can_be_written(cert) && 0 <= i < cert.names.len() ==> is_ascii_chars(cert.names[i]),
{
}

/// What could not be signed is told with its cause.
pub proof fn signing_errors_are_told(e: Seq<char>, cause: Seq<char>, key: Seq<char>, pem: Seq<char>, der: Seq<u8>, cert: CertV)
    ensures
        is_own_error(cause, key, cert) && key_fault(key) is None ==> is_unsigned("自签 CA 失败: "@ + cause, cert),
        is_own(pem, der, key, cert) && key_fault(key) is None && cert_fault(pem) == Some(cause) ==> is_unread(
            "构建 CA 签发器失败: "@ + cause,
            cert,
        ),
        is_sign_error(cause, pem, key, cert) ==> is_leaf_error(
            "failed to sign leaf certificate: "@ + cause,
            pem,
            key,
            cert,
        ),
        is_leaf_error(e, pem, key, cert) ==> exists|c: Seq<char>| #[trigger]
            is_sign_error(c, pem, key, cert) && e == "failed to sign leaf certificate: "@ + c,
{
}

/// An error that is told has its cause: it is that of the signing or of the reading back, for a good key.
pub proof fn told_errors_have_a_cause(e: Seq<char>, cert: CertV, cert_pem: Seq<char>, signs: bool)
    ensures
        is_unsigned(e, cert) ==> exists|c: Seq<char>, k: Seq<char>| #[trigger]
            is_own_error(c, k, cert) && key_fault(k) is None && e == "自签 CA 失败: "@ + c,
        is_unread(e, cert) ==> exists|p: Seq<char>, d: Seq<u8>, k: Seq<char>| #[trigger]
            is_own(p, d, k, cert) && key_fault(k) is None && (cert_fault(p) matches Some(c) && e
                == "构建 CA 签发器失败: "@ + c),
        is_shown_as(cert_pem, signs) ==> exists|s: Seq<char>| #[trigger] is_shown(s, cert_pem) && is_plain(s) == signs,
{
}

} // verus!
