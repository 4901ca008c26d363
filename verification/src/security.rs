//! How a connection is secured: the transport protocol and the SASL mechanism,
//! in the names that librdkafka has for them.

use vstd::prelude::*;
use vstd::string::*;

verus! {

/// The transport that a client speaks to its brokers.
#[derive(Debug, PartialEq, Eq, Clone, Copy, Structural)]
pub enum SecurityProtocol {
    /// Neither encryption nor authentication.
    Plaintext,
    /// Encryption without SASL authentication.
    Ssl,
    /// SASL authentication without encryption.
    SaslPlaintext,
    /// Encryption and SASL authentication.
    SaslSsl,
}

impl SecurityProtocol {
    /// The value of librdkafka's `security.protocol` property.
    pub open spec fn librdkafka_name(self) -> Seq<char> {
        match self {
            SecurityProtocol::Plaintext => "plaintext"@,
            SecurityProtocol::Ssl => "ssl"@,
            SecurityProtocol::SaslPlaintext => "sasl_plaintext"@,
            SecurityProtocol::SaslSsl => "sasl_ssl"@,
        }
    }

    /// Whether the protocol encrypts.
    pub open spec fn encrypts(self) -> bool {
        self is Ssl || self is SaslSsl
    }

    /// Whether the protocol authenticates by SASL.
    pub open spec fn authenticates(self) -> bool {
        self is SaslPlaintext || self is SaslSsl
    }

    /// The value of librdkafka's `security.protocol` property.
    pub fn as_librdkafka(self) -> (r: &'static str)
        ensures
            r@ == self.librdkafka_name(),
    {
        match self {
            SecurityProtocol::Plaintext => "plaintext",
            SecurityProtocol::Ssl => "ssl",
            SecurityProtocol::SaslPlaintext => "sasl_plaintext",
            SecurityProtocol::SaslSsl => "sasl_ssl",
        }
    }
}

/// The protocol that encrypts if and only if `has_ssl` and authenticates if and
/// only if `has_sasl`.
pub open spec fn protocol_for(has_ssl: bool, has_sasl: bool) -> SecurityProtocol {
    if has_ssl && has_sasl {
        SecurityProtocol::SaslSsl
    } else if has_ssl {
        SecurityProtocol::Ssl
    } else if has_sasl {
        SecurityProtocol::SaslPlaintext
    } else {
        SecurityProtocol::Plaintext
    }
}

/// The protocol that encrypts if and only if `has_ssl` and authenticates if and
/// only if `has_sasl`.
pub fn security_protocol(has_ssl: bool, has_sasl: bool) -> (r: SecurityProtocol)
    ensures
        r == protocol_for(has_ssl, has_sasl),
        r.encrypts() == has_ssl,
        r.authenticates() == has_sasl,
{
    match (has_ssl, has_sasl) {
        (true, true) => SecurityProtocol::SaslSsl,
        (true, false) => SecurityProtocol::Ssl,
        (false, true) => SecurityProtocol::SaslPlaintext,
        (false, false) => SecurityProtocol::Plaintext,
    }
}

/// Different protocols have different names.
pub proof fn law_protocol_names_differ(a: SecurityProtocol, b: SecurityProtocol)
    requires
        a.librdkafka_name() == b.librdkafka_name(),
    ensures
        a == b,
{
    reveal_strlit("plaintext");
    reveal_strlit("ssl");
    reveal_strlit("sasl_plaintext");
    reveal_strlit("sasl_ssl");
    assert("plaintext"@.len() == 9);
    assert("ssl"@.len() == 3);
    assert("sasl_plaintext"@.len() == 14);
    assert("sasl_ssl"@.len() == 8);
}

/// The lower case equivalent of an ASCII capital; any other character as it is.
pub open spec fn ascii_lower(c: char) -> char {
    if 'A' <= c <= 'Z' {
        (c as nat + 32) as char
    } else {
        c
    }
}

/// The text with its ASCII capitals in lower case.
pub open spec fn lowercased(s: Seq<char>) -> Seq<char> {
    s.map_values(|c: char| ascii_lower(c))
}

/// `str::to_ascii_lowercase` of std. Claimed of it: each of `A` to `Z` becomes
/// its lower case equivalent, and every other character stays.
pub assume_specification[ str::to_ascii_lowercase ](s: &str) -> (r: String)
    ensures
        r@ == lowercased(s@),
;

/// librdkafka's name of a SASL mechanism that is named in any mixture of
/// cases; `None` where the mechanism is not supported.
pub open spec fn mechanism_name(mechanism: Seq<char>) -> Option<Seq<char>> {
    let lower = lowercased(mechanism);
    if lower == "plain"@ {
        Some("PLAIN"@)
    } else if lower == "scram-sha-256"@ {
        Some("SCRAM-SHA-256"@)
    } else if lower == "scram-sha-512"@ {
        Some("SCRAM-SHA-512"@)
    } else {
        None
    }
}

/// What is answered to a mechanism that is not supported.
pub open spec fn unsupported_mechanism(mechanism: Seq<char>) -> Seq<char> {
    "Unsupported SASL mechanism: "@ + lowercased(mechanism)
}

/// librdkafka's name of a SASL mechanism, or an error for one that is not
/// supported. Upper and lower case make no difference.
pub fn sasl_mechanism(mechanism: &str) -> (r: Result<&'static str, String>)
    ensures
        r is Ok <==> mechanism_name(mechanism@) is Some,
        r matches Ok(name) ==> mechanism_name(mechanism@) == Some(name@),
        r matches Err(e) ==> e@ == unsupported_mechanism(mechanism@),
{
    let lower: String = mechanism.to_ascii_lowercase();
    if lower == "plain".to_owned() {
        Ok("PLAIN")
    } else if lower == "scram-sha-256".to_owned() {
        Ok("SCRAM-SHA-256")
    } else if lower == "scram-sha-512".to_owned() {
        Ok("SCRAM-SHA-512")
    } else {
        let mut e: String = "Unsupported SASL mechanism: ".to_owned();
        e.append(lower.as_str());
        Err(e)
    }
}

/// Which mechanism is meant does not depend on upper and lower case.
pub proof fn law_mechanism_ignores_case(a: Seq<char>, b: Seq<char>)
    requires
        lowercased(a) == lowercased(b),
    ensures
        mechanism_name(a) == mechanism_name(b),
        unsupported_mechanism(a) == unsupported_mechanism(b),
{
}

/// librdkafka's name of a mechanism names that same mechanism.
pub proof fn law_mechanism_name_is_stable(mechanism: Seq<char>)
    ensures
        mechanism_name(mechanism) matches Some(name) ==> mechanism_name(name) == Some(name),
{
    reveal_strlit("plain");
    reveal_strlit("PLAIN");
    reveal_strlit("scram-sha-256");
    reveal_strlit("SCRAM-SHA-256");
    reveal_strlit("scram-sha-512");
    reveal_strlit("SCRAM-SHA-512");
    assert(lowercased("PLAIN"@) =~= "plain"@);
    assert(lowercased("SCRAM-SHA-256"@) =~= "scram-sha-256"@);
    assert(lowercased("SCRAM-SHA-512"@) =~= "scram-sha-512"@);
    assert("plain"@.len() == 5);
    assert("scram-sha-256"@.len() == 13);
    assert("scram-sha-256"@[10] == '2');
    assert("scram-sha-512"@[10] == '5');
}

/// What librdkafka is told follows from whether the connection is encrypted and
/// whether it authenticates, and from nothing else.
pub proof fn law_protocol_follows_from_both(has_ssl: bool, has_sasl: bool)
    ensures
        has_ssl && has_sasl ==> protocol_for(has_ssl, has_sasl).librdkafka_name() == "sasl_ssl"@,
        has_ssl && !has_sasl ==> protocol_for(has_ssl, has_sasl).librdkafka_name() == "ssl"@,
        !has_ssl && has_sasl ==> protocol_for(has_ssl, has_sasl).librdkafka_name()
            == "sasl_plaintext"@,
        !has_ssl && !has_sasl ==> protocol_for(has_ssl, has_sasl).librdkafka_name()
            == "plaintext"@,
        SecurityProtocol::SaslSsl.librdkafka_name() == "sasl_ssl"@,
        SecurityProtocol::Ssl.librdkafka_name() == "ssl"@,
        SecurityProtocol::SaslPlaintext.librdkafka_name() == "sasl_plaintext"@,
        SecurityProtocol::Plaintext.librdkafka_name() == "plaintext"@,
{
}

/// The three supported mechanisms are known in any mixture of cases, and no
/// other is: librdkafka's name is the word that was given, in capitals, and a
/// refusal repeats that word.
pub proof fn law_supported_mechanisms(mechanism: Seq<char>)
    ensures
        lowercased(mechanism) == lowercased("PLAIN"@) ==> mechanism_name(mechanism) == Some(
            "PLAIN"@,
        ),
        lowercased(mechanism) == lowercased("SCRAM-SHA-256"@) ==> mechanism_name(mechanism)
            == Some("SCRAM-SHA-256"@),
        lowercased(mechanism) == lowercased("SCRAM-SHA-512"@) ==> mechanism_name(mechanism)
            == Some("SCRAM-SHA-512"@),
        mechanism_name(mechanism) matches Some(name) ==> {
            &&& lowercased(name) == lowercased(mechanism)
            &&& name == "PLAIN"@ || name == "SCRAM-SHA-256"@ || name == "SCRAM-SHA-512"@
        },
        unsupported_mechanism(mechanism) == "Unsupported SASL mechanism: "@ + lowercased(
            mechanism,
        ),
{
    reveal_strlit("plain");
    reveal_strlit("PLAIN");
    reveal_strlit("scram-sha-256");
    reveal_strlit("SCRAM-SHA-256");
    reveal_strlit("scram-sha-512");
    reveal_strlit("SCRAM-SHA-512");
    assert(lowercased("PLAIN"@) =~= "plain"@);
    assert(lowercased("SCRAM-SHA-256"@) =~= "scram-sha-256"@);
    assert(lowercased("SCRAM-SHA-512"@) =~= "scram-sha-512"@);
    assert("plain"@.len() == 5);
    assert("scram-sha-256"@.len() == 13);
    assert("scram-sha-256"@[10] == '2');
    assert("scram-sha-512"@[10] == '5');
}

} // verus!
