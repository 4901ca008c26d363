//! Connections and the client configuration that librdkafka gets for them.

use rdkafka::config::ClientConfig;
use vstd::prelude::*;
use vstd::string::*;

use crate::security::{
    lowercased, mechanism_name, protocol_for, sasl_mechanism, security_protocol, unsupported_mechanism,
};
use crate::text::{
    comma_join, comma_joined, decimal_nat, law_decimal_injective, law_decimal_reads_back, opt_text,
    texts, unsigned_text,
};

verus! {

/// Certificates and keys for an encrypted connection, in PEM form.
#[derive(Debug, Clone)]
pub struct TlsConfig {
    /// The certificates to trust.
    pub ca: Option<String>,
    /// The client's certificate.
    pub cert: Option<String>,
    /// The client's private key.
    pub key: Option<String>,
    /// The passphrase of that key.
    pub passphrase: Option<String>,
    /// Whether a broker whose certificate does not check out is refused.
    pub reject_unauthorized: Option<bool>,
}

/// Encryption: switched on or off, or on with particulars.
#[derive(Debug, Clone)]
pub enum Ssl {
    /// On or off.
    Toggle(bool),
    /// On, with these certificates and keys.
    Config(TlsConfig),
}

/// How a client authenticates.
#[derive(Debug, Clone)]
pub struct SaslConfig {
    /// The SASL mechanism, in any mixture of cases.
    pub mechanism: String,
    /// The name to log in with.
    pub username: String,
    /// The password to log in with.
    pub password: String,
}

/// A cluster to connect to.
#[derive(Debug, Clone)]
pub struct KafkaConnection {
    /// What the connection is known by.
    pub id: String,
    /// The addresses of some of its brokers.
    pub brokers: Vec<String>,
    /// Encryption.
    pub ssl: Option<Ssl>,
    /// Authentication.
    pub sasl: Option<SaslConfig>,
}

impl KafkaConnection {
    /// Whether the connection is encrypted.
    pub open spec fn has_ssl(self) -> bool {
        match self.ssl {
            Some(Ssl::Toggle(on)) => on,
            Some(Ssl::Config(_)) => true,
            None => false,
        }
    }

    /// The certificates and keys, if there are any.
    pub open spec fn tls(self) -> Option<TlsConfig> {
        match self.ssl {
            Some(Ssl::Config(tls)) => Some(tls),
            _ => None,
        }
    }
}

// ---- the configuration of a client ------------------------------------------

/// The client configuration of `rdkafka`.
#[verifier::external_type_specification]
#[verifier::external_body]
pub struct ExClientConfig(ClientConfig);

/// The properties that have been set in a client configuration.
pub uninterp spec fn config_entries(config: ClientConfig) -> Map<Seq<char>, Seq<char>>;

/// Calls `rdkafka::config::ClientConfig::new`. Claimed of it: no property is
/// set. The log level that it picks is left unsaid.
#[verifier::external_body]
fn new_config() -> (r: ClientConfig)
    ensures
        (config_entries(r) == Map::<Seq<char>, Seq<char>>::empty()),
{
    ClientConfig::new()
}

/// Calls `rdkafka::config::ClientConfig::set`. Claimed of it: the property has
/// the value, whatever it had before, and no other property is touched.
#[verifier::external_body]
fn set_property(config: &mut ClientConfig, key: &str, value: &str)
    ensures
        config_entries(*final(config)) == config_entries(*old(config)).insert(key@, value@),
{
    config.set(key, value);
}

/// Calls `clone` of `rdkafka::config::ClientConfig`. Claimed of it: the same
/// properties are set.
#[verifier::external_body]
pub(crate) fn clone_config(config: &ClientConfig) -> (r: ClientConfig)
    ensures
        config_entries(r) == config_entries(*config),
{
    config.clone()
}

fn set_optional(config: &mut ClientConfig, key: &str, value: &Option<String>)
    ensures
        config_entries(*final(config)) == with_optional(
            config_entries(*old(config)),
            key@,
            *value,
        ),
{
    match value {
        Some(v) => set_property(config, key, v.as_str()),
        None => {},
    }
}

/// The settings with a property added, if there is a value for it.
pub open spec fn with_optional(
    settings: Map<Seq<char>, Seq<char>>,
    key: Seq<char>,
    value: Option<String>,
) -> Map<Seq<char>, Seq<char>> {
    match value {
        Some(v) => settings.insert(key, v@),
        None => settings,
    }
}

/// What every connection sets.
pub open spec fn base_settings(connection: KafkaConnection) -> Map<Seq<char>, Seq<char>> {
    map![
        "bootstrap.servers"@ => comma_joined(texts(connection.brokers@)),
        "client.id"@ => "topiq-explorer-"@ + connection.id@,
        "socket.timeout.ms"@ => "30000"@,
        "security.protocol"@ => protocol_for(
            connection.has_ssl(),
            connection.sasl is Some,
        ).librdkafka_name(),
    ]
}

/// The settings with the credentials added.
pub open spec fn with_sasl(
    settings: Map<Seq<char>, Seq<char>>,
    sasl: Option<SaslConfig>,
) -> Map<Seq<char>, Seq<char>> {
    match sasl {
        Some(s) => settings.insert("sasl.mechanism"@, mechanism_name(s.mechanism@)->0).insert(
            "sasl.username"@,
            s.username@,
        ).insert("sasl.password"@, s.password@),
        None => settings,
    }
}

/// The settings with certificates and keys added. That certificates go
/// unchecked is set only where that was asked for in so many words.
pub open spec fn with_tls(
    settings: Map<Seq<char>, Seq<char>>,
    tls: Option<TlsConfig>,
) -> Map<Seq<char>, Seq<char>> {
    match tls {
        Some(t) => {
            let s = with_optional(settings, "ssl.ca.pem"@, t.ca);
            let s = with_optional(s, "ssl.certificate.pem"@, t.cert);
            let s = with_optional(s, "ssl.key.pem"@, t.key);
            let s = with_optional(s, "ssl.key.password"@, t.passphrase);
            if t.reject_unauthorized == Some(false) {
                s.insert("enable.ssl.certificate.verification"@, "false"@)
            } else {
                s
            }
        },
        None => settings,
    }
}

/// All the properties that a connection sets.
pub open spec fn connection_settings(connection: KafkaConnection) -> Map<Seq<char>, Seq<char>> {
    with_tls(with_sasl(base_settings(connection), connection.sasl), connection.tls())
}

/// What is wrong with a connection, if anything is.
pub open spec fn connection_error(connection: KafkaConnection) -> Option<Seq<char>> {
    if connection.brokers@.len() == 0 {
        Some("At least one broker is required"@)
    } else {
        match connection.sasl {
            Some(s) => if mechanism_name(s.mechanism@) is None {
                Some(unsupported_mechanism(s.mechanism@))
            } else {
                None
            },
            None => None,
        }
    }
}

fn set_tls(config: &mut ClientConfig, tls: &TlsConfig)
    ensures
        config_entries(*final(config)) == with_tls(config_entries(*old(config)), Some(*tls)),
{
    set_optional(config, "ssl.ca.pem", &tls.ca);
    set_optional(config, "ssl.certificate.pem", &tls.cert);
    set_optional(config, "ssl.key.pem", &tls.key);
    set_optional(config, "ssl.key.password", &tls.passphrase);
    match tls.reject_unauthorized {
        Some(reject) => {
            if !reject {
                set_property(config, "enable.ssl.certificate.verification", "false");
            }
        },
        None => {},
    }
}

/// The client configuration of a connection: brokers, client id, protocol,
/// credentials, certificates and keys. A connection without brokers is an
/// error, and so is a SASL mechanism that is not supported.
pub fn build_config(connection: &KafkaConnection) -> (r: Result<ClientConfig, String>)
    ensures
        r is Ok <==> connection_error(*connection) is None,
        r matches Ok(config) ==> config_entries(config) == connection_settings(*connection),
        r matches Err(e) ==> connection_error(*connection) == Some(e@),
{
    if connection.brokers.is_empty() {
        return Err("At least one broker is required".to_owned());
    }
    let mut config: ClientConfig = new_config();
    let brokers: String = comma_join(&connection.brokers);
    set_property(&mut config, "bootstrap.servers", brokers.as_str());
    let mut client_id: String = "topiq-explorer-".to_owned();
    client_id.append(connection.id.as_str());
    set_property(&mut config, "client.id", client_id.as_str());
    set_property(&mut config, "socket.timeout.ms", "30000");

    let has_ssl: bool = match &connection.ssl {
        Some(Ssl::Toggle(on)) => *on,
        Some(Ssl::Config(_)) => true,
        None => false,
    };
    let protocol = security_protocol(has_ssl, connection.sasl.is_some());
    set_property(&mut config, "security.protocol", protocol.as_librdkafka());
    assert(config_entries(config) =~= base_settings(*connection));

    match &connection.sasl {
        Some(sasl) => {
            match sasl_mechanism(sasl.mechanism.as_str()) {
                Ok(mechanism) => set_property(&mut config, "sasl.mechanism", mechanism),
                Err(e) => {
                    return Err(e);
                },
            }
            set_property(&mut config, "sasl.username", sasl.username.as_str());
            set_property(&mut config, "sasl.password", sasl.password.as_str());
        },
        None => {},
    }

    match &connection.ssl {
        Some(Ssl::Config(tls)) => set_tls(&mut config, tls),
        _ => {},
    }
    Ok(config)
}

/// The names of the properties are all different.
proof fn lemma_property_names_differ()
    ensures
        property_names().no_duplicates(),
{
    reveal_strlit("bootstrap.servers");
    reveal_strlit("client.id");
    reveal_strlit("socket.timeout.ms");
    reveal_strlit("security.protocol");
    reveal_strlit("sasl.mechanism");
    reveal_strlit("sasl.username");
    reveal_strlit("sasl.password");
    reveal_strlit("ssl.ca.pem");
    reveal_strlit("ssl.certificate.pem");
    reveal_strlit("ssl.key.pem");
    reveal_strlit("ssl.key.password");
    reveal_strlit("enable.ssl.certificate.verification");
    assert("bootstrap.servers"@.len() == 17);
    assert("client.id"@.len() == 9);
    assert("socket.timeout.ms"@.len() == 17);
    assert("security.protocol"@.len() == 17);
    assert("sasl.mechanism"@.len() == 14);
    assert("sasl.username"@.len() == 13);
    assert("sasl.password"@.len() == 13);
    assert("ssl.ca.pem"@.len() == 10);
    assert("ssl.certificate.pem"@.len() == 19);
    assert("ssl.key.pem"@.len() == 11);
    assert("ssl.key.password"@.len() == 16);
    assert("enable.ssl.certificate.verification"@.len() == 35);
    assert("bootstrap.servers"@[0] == 'b' && "socket.timeout.ms"@[0] == 's');
    assert("bootstrap.servers"@[0] == 'b' && "security.protocol"@[0] == 's');
    assert("socket.timeout.ms"@[1] == 'o' && "security.protocol"@[1] == 'e');
    assert("sasl.username"@[5] == 'u' && "sasl.password"@[5] == 'p');
}

/// The names of all the properties that a connection may set.
spec fn property_names() -> Seq<Seq<char>> {
    seq![
        "bootstrap.servers"@,
        "client.id"@,
        "socket.timeout.ms"@,
        "security.protocol"@,
        "sasl.mechanism"@,
        "sasl.username"@,
        "sasl.password"@,
        "ssl.ca.pem"@,
        "ssl.certificate.pem"@,
        "ssl.key.pem"@,
        "ssl.key.password"@,
        "enable.ssl.certificate.verification"@,
    ]
}

/// Credentials are set if and only if the connection has any, each under its own
/// property and unchanged.
pub proof fn law_credentials_set_as_given(connection: KafkaConnection)
    ensures
        ({
            let settings = connection_settings(connection);
            &&& settings.contains_key("sasl.mechanism"@) <==> connection.sasl is Some
            &&& settings.contains_key("sasl.username"@) <==> connection.sasl is Some
            &&& settings.contains_key("sasl.password"@) <==> connection.sasl is Some
            &&& connection.sasl matches Some(s) ==> {
                &&& mechanism_name(s.mechanism@) matches Some(name)
                    ==> settings["sasl.mechanism"@] == name
                &&& settings["sasl.username"@] == s.username@
                &&& settings["sasl.password"@] == s.password@
            }
        }),
{
    lemma_property_names_differ();
}

/// Brokers, client id, socket timeout and protocol are set on every connection,
/// and the protocol is the one that its encryption and authentication call for:
/// encryption that is switched on, or has particulars, is used whether or not
/// the client logs in, and only then.
pub proof fn law_every_connection_names_its_brokers(connection: KafkaConnection)
    ensures
        ({
            let settings = connection_settings(connection);
            let protocol = settings["security.protocol"@];
            &&& settings.contains_key("bootstrap.servers"@)
            &&& settings["bootstrap.servers"@] == comma_joined(texts(connection.brokers@))
            &&& settings.contains_key("client.id"@)
            &&& settings["client.id"@] == "topiq-explorer-"@ + connection.id@
            &&& settings.contains_key("socket.timeout.ms"@)
            &&& settings["socket.timeout.ms"@] == "30000"@
            &&& settings.contains_key("security.protocol"@)
            &&& protocol == protocol_for(
                connection.has_ssl(),
                connection.sasl is Some,
            ).librdkafka_name()
            &&& connection.ssl is None ==> protocol == (if connection.sasl is None {
                "plaintext"@
            } else {
                "sasl_plaintext"@
            })
            &&& connection.ssl matches Some(Ssl::Toggle(on)) ==> protocol == (if !on {
                if connection.sasl is None {
                    "plaintext"@
                } else {
                    "sasl_plaintext"@
                }
            } else if connection.sasl is None {
                "ssl"@
            } else {
                "sasl_ssl"@
            })
            &&& connection.ssl matches Some(Ssl::Config(_)) ==> protocol == (
            if connection.sasl is None {
                "ssl"@
            } else {
                "sasl_ssl"@
            })
        }),
{
    lemma_property_names_differ();
}

/// Certificates of brokers go unchecked only on a connection that asks for that,
/// and certificates and keys are set exactly as they are given.
pub proof fn law_tls_set_as_given(connection: KafkaConnection)
    ensures
        ({
            let settings = connection_settings(connection);
            &&& connection.ssl matches Some(Ssl::Config(t)) ==> {
                &&& settings.contains_key("enable.ssl.certificate.verification"@)
                    <==> t.reject_unauthorized == Some(false)
                &&& t.reject_unauthorized == Some(false)
                    ==> settings["enable.ssl.certificate.verification"@] == "false"@
                &&& settings.contains_key("ssl.ca.pem"@) <==> t.ca is Some
                &&& settings.contains_key("ssl.certificate.pem"@) <==> t.cert is Some
                &&& settings.contains_key("ssl.key.pem"@) <==> t.key is Some
                &&& settings.contains_key("ssl.key.password"@) <==> t.passphrase is Some
                &&& t.ca matches Some(v) ==> settings["ssl.ca.pem"@] == v@
                &&& t.cert matches Some(v) ==> settings["ssl.certificate.pem"@] == v@
                &&& t.key matches Some(v) ==> settings["ssl.key.pem"@] == v@
                &&& t.passphrase matches Some(v) ==> settings["ssl.key.password"@] == v@
            }
            &&& !(connection.ssl matches Some(Ssl::Config(_))) ==> {
                &&& !settings.contains_key("enable.ssl.certificate.verification"@)
                &&& !settings.contains_key("ssl.ca.pem"@)
                &&& !settings.contains_key("ssl.certificate.pem"@)
                &&& !settings.contains_key("ssl.key.pem"@)
                &&& !settings.contains_key("ssl.key.password"@)
            }
        }),
{
    lemma_property_names_differ();
}

/// Nothing but these twelve properties is ever set.
pub proof fn law_no_other_property_is_set(connection: KafkaConnection, name: Seq<char>)
    requires
        connection_settings(connection).contains_key(name),
    ensures
        ({
            ||| name == "bootstrap.servers"@
            ||| name == "client.id"@
            ||| name == "socket.timeout.ms"@
            ||| name == "security.protocol"@
            ||| name == "sasl.mechanism"@
            ||| name == "sasl.username"@
            ||| name == "sasl.password"@
            ||| name == "ssl.ca.pem"@
            ||| name == "ssl.certificate.pem"@
            ||| name == "ssl.key.pem"@
            ||| name == "ssl.key.password"@
            ||| name == "enable.ssl.certificate.verification"@
        }),
{
}

/// A connection is refused only where it names no broker, or where the mechanism
/// that it logs in with is none of the three supported ones, and never on any
/// other ground.
pub proof fn law_connection_refused_only_for_cause(connection: KafkaConnection)
    ensures
        connection.brokers@.len() == 0 ==> connection_error(connection) == Some(
            "At least one broker is required"@,
        ),
        connection.brokers@.len() > 0 && connection.sasl is None ==> connection_error(connection)
            is None,
        connection.brokers@.len() > 0 ==> (connection.sasl matches Some(s) ==> {
            let word = lowercased(s.mechanism@);
            if word == "plain"@ || word == "scram-sha-256"@ || word == "scram-sha-512"@ {
                connection_error(connection) is None
            } else {
                connection_error(connection) == Some("Unsupported SASL mechanism: "@ + word)
            }
        }),
{
}

/// Whether a property holds a secret: who logs in and how, the client's private
/// key and the passphrase of that key.
pub open spec fn is_secret(name: Seq<char>) -> bool {
    ||| name == "sasl.username"@
    ||| name == "sasl.password"@
    ||| name == "ssl.key.pem"@
    ||| name == "ssl.key.password"@
}

/// Whether two connections are the same but for username, password, private key
/// and passphrase.
pub open spec fn same_but_secrets(a: KafkaConnection, b: KafkaConnection) -> bool {
    &&& a.id@ == b.id@
    &&& texts(a.brokers@) == texts(b.brokers@)
    &&& match (a.ssl, b.ssl) {
        (Some(Ssl::Toggle(x)), Some(Ssl::Toggle(y))) => x == y,
        (Some(Ssl::Config(x)), Some(Ssl::Config(y))) => {
            &&& opt_text(x.ca) == opt_text(y.ca)
            &&& opt_text(x.cert) == opt_text(y.cert)
            &&& x.reject_unauthorized == y.reject_unauthorized
        },
        (None, None) => true,
        _ => false,
    }
    &&& match (a.sasl, b.sasl) {
        (Some(x), Some(y)) => x.mechanism@ == y.mechanism@,
        (None, None) => true,
        _ => false,
    }
}

/// Secrets go nowhere but into their own properties: connections that are the
/// same but for them have the same error, if they have one, and settings that
/// agree on every other property.
pub proof fn law_secrets_stay_in_their_properties(a: KafkaConnection, b: KafkaConnection)
    requires
        same_but_secrets(a, b),
    ensures
        connection_error(a) == connection_error(b),
        forall|name: Seq<char>|
            !is_secret(name) ==> (#[trigger] connection_settings(a).contains_key(name)
                <==> connection_settings(b).contains_key(name)),
        forall|name: Seq<char>|
            !is_secret(name) && connection_settings(a).contains_key(name)
                ==> #[trigger] connection_settings(a)[name] == connection_settings(b)[name],
{
    assert(a.brokers@.len() == texts(a.brokers@).len());
    assert(b.brokers@.len() == texts(b.brokers@).len());
}

// ---- the configuration of a consumer ----------------------------------------

/// The group of a consumer that was made at `nanos` as the `seq`-th one.
pub open spec fn group_id(nanos: nat, seq: nat) -> Seq<char> {
    "topiq-explorer-spike-"@ + decimal_nat(nanos) + "-"@ + decimal_nat(seq)
}

/// The settings of a connection made into those of a consumer: a group of its
/// own, and no offsets committed.
pub open spec fn consumer_settings(
    settings: Map<Seq<char>, Seq<char>>,
    nanos: nat,
    seq: nat,
) -> Map<Seq<char>, Seq<char>> {
    settings.insert("group.id"@, group_id(nanos, seq)).insert("enable.auto.commit"@, "false"@)
}

/// The configuration of a consumer for a connection. Partitions are assigned to
/// it by hand, so the group coordinates nothing; librdkafka asks for one all
/// the same, and it gets one of its own, made of the time and a running number.
pub fn consumer_config(config: &ClientConfig, nanos: u128, seq: u64) -> (r: ClientConfig)
    ensures
        config_entries(r) == consumer_settings(config_entries(*config), nanos as nat, seq as nat),
{
    let mut group: String = "topiq-explorer-spike-".to_owned();
    group.append(unsigned_text(nanos).as_str());
    group.append("-");
    group.append(unsigned_text(seq as u128).as_str());
    let mut consumer: ClientConfig = clone_config(config);
    set_property(&mut consumer, "group.id", group.as_str());
    set_property(&mut consumer, "enable.auto.commit", "false");
    consumer
}

/// Consumers made at different times or under different running numbers are in
/// different groups.
pub proof fn law_group_ids_are_unique(nanos1: nat, seq1: nat, nanos2: nat, seq2: nat)
    requires
        group_id(nanos1, seq1) == group_id(nanos2, seq2),
    ensures
        nanos1 == nanos2,
        seq1 == seq2,
{
    reveal_strlit("-");
    let prefix = "topiq-explorer-spike-"@;
    let (n1, s1) = (decimal_nat(nanos1), decimal_nat(seq1));
    let (n2, s2) = (decimal_nat(nanos2), decimal_nat(seq2));
    let g = group_id(nanos1, seq1);
    let p = prefix.len() as int;
    law_decimal_reads_back(nanos1);
    law_decimal_reads_back(nanos2);
    assert(g[p + n1.len()] == '-');
    assert(g[p + n2.len()] == '-');
    if n1.len() < n2.len() {
        assert(g[p + n1.len()] == n2[n1.len() as int]);
    }
    if n2.len() < n1.len() {
        assert(g[p + n2.len()] == n1[n2.len() as int]);
    }
    assert(n1 =~= g.subrange(p, p + n1.len()));
    assert(n2 =~= g.subrange(p, p + n2.len()));
    assert(s1 =~= g.skip(p + n1.len() + 1));
    assert(s2 =~= g.skip(p + n2.len() + 1));
    law_decimal_injective(nanos1, nanos2);
    law_decimal_injective(seq1, seq2);
}

/// A consumer has its own group, made of the time and the running number,
/// commits no offsets, and has every other property as the connection has it.
pub proof fn law_consumer_keeps_the_connection(
    settings: Map<Seq<char>, Seq<char>>,
    nanos: nat,
    seq: nat,
    name: Seq<char>,
)
    ensures
        ({
            let consumer = consumer_settings(settings, nanos, seq);
            &&& consumer.contains_key("group.id"@)
            &&& consumer["group.id"@] == "topiq-explorer-spike-"@ + decimal_nat(nanos) + "-"@
                + decimal_nat(seq)
            &&& consumer.contains_key("enable.auto.commit"@)
            &&& consumer["enable.auto.commit"@] == "false"@
            &&& name != "group.id"@ && name != "enable.auto.commit"@ ==> {
                &&& consumer.contains_key(name) <==> settings.contains_key(name)
                &&& settings.contains_key(name) ==> consumer[name] == settings[name]
            }
        }),
{
    reveal_strlit("group.id");
    reveal_strlit("enable.auto.commit");
    assert("group.id"@.len() == 8);
    assert("enable.auto.commit"@.len() == 18);
}

} // verus!
