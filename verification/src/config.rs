//! Settings of the application.

use vstd::prelude::*;

verus! {

/// The settings read from the configuration file.
#[derive(Debug, Clone)]
pub struct Config {
    pub data_path: String,
    pub telegram_user_id: i64,
    pub allowed_telegram_users: Vec<i64>,
    pub max_number_of_tries: i32,
    pub email_from: Option<String>,
    pub email_smtp_host: Option<String>,
    pub email_smtp_credential_username: Option<String>,
    pub email_smtp_credential_password: Option<String>,
}

} // verus!
