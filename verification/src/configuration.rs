//! Settings of the service, as plain values, and the rules that read them.

use vstd::prelude::*;
use vstd::string::StringExecFns;

use crate::text::str_eq;
use crate::domain::invalid_email_message;
use crate::domain::is_valid_email;
use crate::domain::SubscriberEmail;

verus! {

/// Where the HTTP server listens.
pub struct ApplicationSettings {
    pub port: u16,
    pub host: String,
}

/// How to reach the database.
pub struct DatabaseSettings {
    pub username: String,
    pub password: String,
    pub port: u16,
    pub host: String,
    pub database_name: String,
    pub require_ssl: bool,
}

/// Whether an encrypted connection is demanded or only preferred.
#[derive(Debug, Clone, Copy, PartialEq, Eq, Structural)]
pub enum SslMode {
    Require,
    Prefer,
}

impl DatabaseSettings {
    /// Encryption is demanded if the settings require it, and preferred
    /// otherwise.
    pub fn ssl_mode(&self) -> (mode: SslMode)
        ensures
            mode == if self.require_ssl {
                SslMode::Require
            } else {
                SslMode::Prefer
            },
    {
        if self.require_ssl {
            SslMode::Require
        } else {
            SslMode::Prefer
        }
    }
}

/// Whether `text` parses as a URL, as `reqwest::Url::parse` decides.
pub uninterp spec fn is_url(text: Seq<char>) -> bool;

/// `reqwest::Url::parse`: whether the text parses is a function of the
/// text alone; no more is claimed.
#[verifier::external_body]
fn parses_as_url(text: &str) -> (ok: bool)
    ensures
        ok == is_url(text@),
{
    reqwest::Url::parse(text).is_ok()
}

/// The message with which `text` is refused as a URL.
pub open spec fn not_a_url_message(text: Seq<char>) -> Seq<char> {
    text + " is not a URL."@
}

/// The mailer's base URL, as the text that was configured.
pub struct EmailBaseUrl {
    text: String,
}

impl View for EmailBaseUrl {
    type V = Seq<char>;

    closed spec fn view(&self) -> Seq<char> {
        self.text@
    }
}

impl EmailBaseUrl {
    /// Every base URL that exists parses as a URL.
    #[verifier::type_invariant]
    spec fn well_formed(self) -> bool {
        is_url(self.text@)
    }

    /// Accepts `value` if it parses as a URL, and refuses it with a
    /// message that names it otherwise.
    pub fn try_from(value: String) -> (r: Result<EmailBaseUrl, String>)
        ensures
            match r {
                Ok(url) => is_url(value@) && url@ == value@,
                Err(message) => !is_url(value@) && message@ == not_a_url_message(value@),
            },
    {
        if parses_as_url(value.as_str()) {
            Ok(EmailBaseUrl { text: value })
        } else {
            Err(value.concat(" is not a URL."))
        }
    }

    /// The URL as text.
    pub fn as_str(&self) -> (text: &str)
        ensures
            text@ == self@,
            is_url(text@),
    {
        proof {
            use_type_invariant(self);
        }
        self.text.as_str()
    }
}

/// How to reach the mailer.
pub struct EmailClientSettings {
    pub base_url: EmailBaseUrl,
    pub sender_email: String,
    pub auth_token: String,
    pub timeout_milliseconds: u64,
}

impl EmailClientSettings {
    /// The sender's address, if the configured one is valid.
    pub fn sender(&self) -> (r: Result<SubscriberEmail, String>)
        ensures
            match r {
                Ok(email) => is_valid_email(self.sender_email@) && email@ == self.sender_email@,
                Err(message) => !is_valid_email(self.sender_email@) && message@
                    == invalid_email_message(self.sender_email@),
            },
    {
        SubscriberEmail::parse(self.sender_email.clone())
    }
}

/// All settings.
pub struct Settings {
    pub database: DatabaseSettings,
    pub application: ApplicationSettings,
    pub email_client: EmailClientSettings,
}

/// The environment the service runs in.
#[derive(Debug, Clone, Copy, PartialEq, Eq, Structural)]
pub enum Environment {
    Local,
    Production,
}

/// The name of `environment`.
pub open spec fn environment_name(environment: Environment) -> Seq<char> {
    match environment {
        Environment::Local => "local"@,
        Environment::Production => "production"@,
    }
}

/// The message with which an unknown environment name is refused.
pub open spec fn unsupported_environment_message(name: Seq<char>) -> Seq<char> {
    name + " is not a supported environment. Use either `local` or `production`."@
}

/// `text` with every character in lower case, as `str::to_lowercase`
/// gives it.
pub uninterp spec fn lowercase_of(text: Seq<char>) -> Seq<char>;

/// `str::to_lowercase`: the result is a function of the text alone; no
/// more is claimed of it.
#[verifier::external_body]
fn to_lowercase(text: &str) -> (lower: String)
    ensures
        lower@ == lowercase_of(text@),
{
    text.to_lowercase()
}

impl Environment {
    /// The name of the environment, which is also the stem of its
    /// settings file.
    pub fn as_str(&self) -> (name: &'static str)
        ensures
            name@ == environment_name(*self),
    {
        match self {
            Environment::Local => "local",
            Environment::Production => "production",
        }
    }

    /// The environment that `name` names exactly.
    pub fn from_name(name: &str) -> (r: Result<Environment, String>)
        ensures
            match r {
                Ok(environment) => name@ == environment_name(environment),
                Err(message) => {
                    &&& name@ != "local"@
                    &&& name@ != "production"@
                    &&& message@ == unsupported_environment_message(name@)
                },
            },
    {
        if str_eq(name, "local") {
            Ok(Environment::Local)
        } else if str_eq(name, "production") {
            Ok(Environment::Production)
        } else {
            Err(
                String::from_str(name).concat(
                    " is not a supported environment. Use either `local` or `production`.",
                ),
            )
        }
    }

    /// The environment that `value` names, whatever the case of its
    /// letters.
    pub fn try_from(value: String) -> (r: Result<Environment, String>)
        ensures
            match r {
                Ok(environment) => lowercase_of(value@) == environment_name(environment),
                Err(message) => {
                    &&& lowercase_of(value@) != "local"@
                    &&& lowercase_of(value@) != "production"@
                    &&& message@ == unsupported_environment_message(lowercase_of(value@))
                },
            },
    {
        let lower = to_lowercase(value.as_str());
        Environment::from_name(lower.as_str())
    }

    /// The name of the settings file of the environment.
    pub fn settings_file(&self) -> (file: String)
        ensures
            file@ == environment_name(*self) + ".yaml"@,
    {
        String::from_str(self.as_str()).concat(".yaml")
    }
}

/// The two environments have different names.
pub proof fn lemma_environment_names_differ()
    ensures
        environment_name(Environment::Local) != environment_name(Environment::Production),
{
    reveal_strlit("local");
    reveal_strlit("production");
    assert("local"@.len() != "production"@.len());
}

} // verus!
