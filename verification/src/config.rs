//! Connection settings of the graph store.

use serde_yaml::Value;
use vstd::prelude::*;

verus! {

/// `serde_yaml::Value`, a value of a document. Nothing inside it is seen
/// here.
#[verifier::external_type_specification]
#[verifier::external_body]
pub struct ExValue(Value);

/// `serde_yaml::Error`, the error of reading a document. Nothing inside it
/// is seen here.
#[verifier::external_type_specification]
#[verifier::external_body]
pub struct ExYamlError(serde_yaml::Error);

/// The document that `serde_yaml::from_str` reads from a text, where it reads
/// one.
pub uninterp spec fn yaml_document(text: Seq<char>) -> Option<Value>;

/// The value that `Value::get` finds in a value under a key that is a string.
pub uninterp spec fn yaml_member(value: Value, key: Seq<char>) -> Option<Value>;

/// The text that `Value::as_str` finds in a value.
pub uninterp spec fn yaml_text(value: Value) -> Option<Seq<char>>;

/// `serde_yaml::from_str` for a `Value`: the document of the text, or the
/// error of that crate where the text holds none. What the document is for a
/// given text is not stated, only that the text alone decides it.
#[verifier::external_body]
fn parse_yaml(text: &str) -> (parsed: Result<Value, serde_yaml::Error>)
    ensures
        match parsed {
            Ok(document) => yaml_document(text@) == Some(document),
            Err(_) => yaml_document(text@) is None,
        },
{
    serde_yaml::from_str::<Value>(text)
}

/// `Value::get` with a string as the index: the value that it finds under
/// the key, if it finds one. Which value that is, is not stated, only that
/// the value and the key decide it.
#[verifier::external_body]
fn yaml_get<'a>(value: &'a Value, key: &str) -> (member: Option<&'a Value>)
    ensures
        match member {
            Some(found) => yaml_member(*value, key@) == Some(*found),
            None => yaml_member(*value, key@) is None,
        },
{
    value.get(key)
}

/// `Value::as_str`: the text of a value that is a string, nothing for any
/// other value.
#[verifier::external_body]
fn yaml_as_str<'a>(value: &'a Value) -> (text: Option<&'a str>)
    ensures
        match text {
            Some(found) => yaml_text(*value) == Some(found@),
            None => yaml_text(*value) is None,
        },
{
    value.as_str()
}

/// Why no settings were read.
#[derive(Clone, Copy, Debug, PartialEq, Eq, Structural)]
pub enum ConfigError {
    /// The text is no document.
    Malformed,
    /// The document lacks one of the three settings, or holds something
    /// other than a text for it.
    Missing,
}

/// Where the store is and who connects to it.
pub struct DbConfig {
    uri: String,
    user: String,
    password: String,
}

/// The three settings of a [`DbConfig`] as character sequences.
pub struct DbConfigView {
    pub uri: Seq<char>,
    pub user: Seq<char>,
    pub password: Seq<char>,
}

impl View for DbConfig {
    type V = DbConfigView;

    closed spec fn view(&self) -> DbConfigView {
        DbConfigView { uri: self.uri@, user: self.user@, password: self.password@ }
    }
}

impl DbConfig {
    /// Keeps a copy of each of the three settings.
    pub fn create(uri: &str, user: &str, password: &str) -> (config: Self)
        ensures
            config@.uri == uri@,
            config@.user == user@,
            config@.password == password@,
    {
        Self { uri: uri.to_owned(), user: user.to_owned(), password: password.to_owned() }
    }

    /// A copy of the address of the store.
    pub fn uri(&self) -> (uri: String)
        ensures
            uri@ == self@.uri,
    {
        self.uri.clone()
    }

    /// A copy of the name of the user.
    pub fn user(&self) -> (user: String)
        ensures
            user@ == self@.user,
    {
        self.user.clone()
    }

    /// A copy of the password of the user.
    pub fn password(&self) -> (password: String)
        ensures
            password@ == self@.password,
    {
        self.password.clone()
    }
}

/// The text under a key of a value.
pub open spec fn text_member(value: Value, key: Seq<char>) -> Option<Seq<char>> {
    match yaml_member(value, key) {
        Some(member) => yaml_text(member),
        None => None,
    }
}

/// The settings that a document holds: the texts under `uri`, `user` and
/// `password` of what it holds under `connection` of `database`.
pub open spec fn connection_settings(document: Value) -> Option<DbConfigView> {
    match yaml_member(document, "database"@) {
        Some(database) => match yaml_member(database, "connection"@) {
            Some(connection) => match (
                text_member(connection, "uri"@),
                text_member(connection, "user"@),
                text_member(connection, "password"@),
            ) {
                (Some(uri), Some(user), Some(password)) => Some(DbConfigView { uri, user, password }),
                _ => None,
            },
            None => None,
        },
        None => None,
    }
}

/// The text under a key of a value.
fn text_under<'a>(value: &'a Value, key: &str) -> (text: Option<&'a str>)
    ensures
        match text {
            Some(found) => text_member(*value, key@) == Some(found@),
            None => text_member(*value, key@) is None,
        },
{
    match yaml_get(value, key) {
        Some(member) => yaml_as_str(member),
        None => None,
    }
}

/// The settings that a document holds, if it holds all three.
pub fn connection_of(document: &Value) -> (config: Option<DbConfig>)
    ensures
        match config {
            Some(config) => connection_settings(*document) == Some(config@),
            None => connection_settings(*document) is None,
        },
{
    let database = match yaml_get(document, "database") {
        Some(database) => database,
        None => {
            return None;
        },
    };
    let connection = match yaml_get(database, "connection") {
        Some(connection) => connection,
        None => {
            return None;
        },
    };
    let uri = text_under(connection, "uri");
    let user = text_under(connection, "user");
    let password = text_under(connection, "password");
    match (uri, user, password) {
        (Some(uri), Some(user), Some(password)) => Some(DbConfig::create(uri, user, password)),
        _ => None,
    }
}

/// Reads the settings from the text of a document.
pub fn parse_config(text: &str) -> (parsed: Result<DbConfig, ConfigError>)
    ensures
        match parsed {
            Ok(config) => yaml_document(text@) matches Some(document) && connection_settings(document)
                == Some(config@),
            Err(ConfigError::Malformed) => yaml_document(text@) is None,
            Err(ConfigError::Missing) => yaml_document(text@) matches Some(document) && connection_settings(
                document,
            ) is None,
        },
{
    match parse_yaml(text) {
        Ok(document) => match connection_of(&document) {
            Some(config) => Ok(config),
            None => Err(ConfigError::Missing),
        },
        Err(_) => Err(ConfigError::Malformed),
    }
}

} // verus!
