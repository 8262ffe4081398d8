//! Process-wide configuration of the sink: read once at startup from the
//! environment (by unverified code at the process edge), immutable
//! thereafter, and shared read-only by every connection task.

use vstd::prelude::*;

verus! {

/// The sink's configuration values.
#[derive(Debug, Clone)]
pub struct Config {
    bind_to: String,
    ch_host: String,
    ch_user: String,
    ch_password: String,
    ch_database: String,
    service_name: String,
    environment: String,
}

pub ghost struct ConfigView {
    pub bind_to: Seq<char>,
    pub ch_host: Seq<char>,
    pub ch_user: Seq<char>,
    pub ch_password: Seq<char>,
    pub ch_database: Seq<char>,
    pub service_name: Seq<char>,
    pub environment: Seq<char>,
}

impl View for Config {
    type V = ConfigView;

    closed spec fn view(&self) -> ConfigView {
        ConfigView {
            bind_to: self.bind_to@,
            ch_host: self.ch_host@,
            ch_user: self.ch_user@,
            ch_password: self.ch_password@,
            ch_database: self.ch_database@,
            service_name: self.service_name@,
            environment: self.environment@,
        }
    }
}

impl Config {
    pub fn new(
        bind_to: String,
        ch_host: String,
        ch_user: String,
        ch_password: String,
        ch_database: String,
        service_name: String,
        environment: String,
    ) -> (r: Self)
        ensures
            r@ == (ConfigView {
                bind_to: bind_to@,
                ch_host: ch_host@,
                ch_user: ch_user@,
                ch_password: ch_password@,
                ch_database: ch_database@,
                service_name: service_name@,
                environment: environment@,
            }),
    {
        Config { bind_to, ch_host, ch_user, ch_password, ch_database, service_name, environment }
    }

    /// The address to bind the listener to.
    pub fn bind_to(&self) -> (r: &String)
        ensures
            r@ == self@.bind_to,
    {
        &self.bind_to
    }

    /// The downstream store's host.
    pub fn ch_host(&self) -> (r: &String)
        ensures
            r@ == self@.ch_host,
    {
        &self.ch_host
    }

    /// The downstream store's user.
    pub fn ch_user(&self) -> (r: &String)
        ensures
            r@ == self@.ch_user,
    {
        &self.ch_user
    }

    /// The downstream store's secret credential. Kept as a plain value
    /// here; the process edge wraps it for redaction before logging.
    pub fn ch_password(&self) -> (r: &String)
        ensures
            r@ == self@.ch_password,
    {
        &self.ch_password
    }

    /// The downstream store's database.
    pub fn ch_database(&self) -> (r: &String)
        ensures
            r@ == self@.ch_database,
    {
        &self.ch_database
    }

    /// Service name of the application whose logs are being processed.
    pub fn service_name(&self) -> (r: &String)
        ensures
            r@ == self@.service_name,
    {
        &self.service_name
    }

    /// Environment of that application.
    pub fn environment(&self) -> (r: &String)
        ensures
            r@ == self@.environment,
    {
        &self.environment
    }
}

} // verus!
