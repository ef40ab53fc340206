//! Settings for sending reports by e-mail.

use vstd::prelude::*;
use vstd::string::StringExecFns;
use crate::config::Config;
use crate::error::AppError;

verus! {

/// The account that reports are sent from.
pub struct EmailSender {
    from: String,
    host: String,
    username: String,
    password: String,
}

/// The error for a missing e-mail setting named `property`.
pub fn not_set_up(property: &str) -> (error: AppError)
    ensures
        error matches AppError::EmailNotSetUp { property: name } && name@ == property@,
{
    AppError::EmailNotSetUp { property: property.to_owned() }
}

/// The first e-mail setting that `config` lacks, in the order sender, host,
/// user name, password.
pub open spec fn missing_setting(config: Config) -> Option<Seq<char>> {
    if config.email_from is None {
        Some("email_from"@)
    } else if config.email_smtp_host is None {
        Some("email_smtp_host"@)
    } else if config.email_smtp_credential_username is None {
        Some("email_smtp_credential_username"@)
    } else if config.email_smtp_credential_password is None {
        Some("email_smtp_credential_password"@)
    } else {
        None
    }
}

impl EmailSender {
    /// Address of the sender.
    pub closed spec fn sender(&self) -> Seq<char> {
        self.from@
    }

    /// Name of the SMTP host.
    pub closed spec fn server(&self) -> Seq<char> {
        self.host@
    }

    /// User name at the SMTP host.
    pub closed spec fn user(&self) -> Seq<char> {
        self.username@
    }

    /// Password at the SMTP host.
    pub closed spec fn secret(&self) -> Seq<char> {
        self.password@
    }

    /// Address of the sender.
    pub fn from(&self) -> (from: &String)
        ensures
            from@ == self.sender(),
    {
        &self.from
    }

    /// Name of the SMTP host.
    pub fn host(&self) -> (host: &String)
        ensures
            host@ == self.server(),
    {
        &self.host
    }

    /// User name at the SMTP host.
    pub fn username(&self) -> (username: &String)
        ensures
            username@ == self.user(),
    {
        &self.username
    }

    /// Password at the SMTP host.
    pub fn password(&self) -> (password: &String)
        ensures
            password@ == self.secret(),
    {
        &self.password
    }

    /// The sender that `config` describes. All four e-mail settings are
    /// needed; the error names the first that is missing.
    pub fn from_config(config: &Config) -> (result: Result<EmailSender, AppError>)
        ensures
            match result {
                Ok(sender) => {
                    &&& config.email_from matches Some(value) && value@ == sender.sender()
                    &&& config.email_smtp_host matches Some(value) && value@ == sender.server()
                    &&& config.email_smtp_credential_username matches Some(value) && value@
                        == sender.user()
                    &&& config.email_smtp_credential_password matches Some(value) && value@
                        == sender.secret()
                },
                Err(error) => error matches AppError::EmailNotSetUp { property }
                    && missing_setting(*config) == Some(property@),
            },
    {
        let from = match &config.email_from {
            Some(value) => value.clone(),
            None => {
                return Err(not_set_up("email_from"));
            },
        };
        let host = match &config.email_smtp_host {
            Some(value) => value.clone(),
            None => {
                return Err(not_set_up("email_smtp_host"));
            },
        };
        let username = match &config.email_smtp_credential_username {
            Some(value) => value.clone(),
            None => {
                return Err(not_set_up("email_smtp_credential_username"));
            },
        };
        let password = match &config.email_smtp_credential_password {
            Some(value) => value.clone(),
            None => {
                return Err(not_set_up("email_smtp_credential_password"));
            },
        };
        Ok(EmailSender { from, host, username, password })
    }
}

} // verus!
