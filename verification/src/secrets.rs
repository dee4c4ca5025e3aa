//! Configuration records: the credentials and endpoints the surrounding
//! program loads at startup and hands to the core's collaborators. Loading
//! them from files or the environment is the program's job, not the
//! core's; here they are plain data.

use vstd::prelude::*;

verus! {

/// The whole configuration of the mirroring service.
pub struct Secret {
    pub discord: Discord,
    pub github: Github,
    pub web: Web,
    pub redis: Redis,
}

/// Chat-platform credentials.
pub struct Discord {
    pub client_id: u64,
    pub client_secret: String,
    pub token: String,
}

/// Source-hosting application credentials.
pub struct Github {
    pub client_id: String,
    pub client_secret: String,
    pub slug: String,
    pub app_id: u64,
    pub webhook_secret: String,
}

/// The webhook receiver's own settings.
pub struct Web {
    pub port: u16,
}

/// Where the registry and bus store lives.
pub struct Redis {
    pub addr: String,
}

/// Configuration of the single-process variant of the service.
pub struct Secrets {
    pub db: DbSecrets,
    pub discord: DiscordSecrets,
    pub webhook: WebhookSecrets,
}

/// Database settings of the single-process variant.
pub struct DbSecrets {
    pub url: String,
}

/// Chat credentials of the single-process variant.
pub struct DiscordSecrets {
    pub token: String,
}

/// Webhook settings of the single-process variant.
pub struct WebhookSecrets {
    pub secret: String,
}

impl Secrets {
    /// Assemble a configuration from its parts.
    pub fn new(db: DbSecrets, discord: DiscordSecrets, webhook: WebhookSecrets) -> (r: Secrets)
        ensures
            r.db == db,
            r.discord == discord,
            r.webhook == webhook,
    {
        Secrets { db, discord, webhook }
    }

    /// The database settings.
    pub fn db(&self) -> (r: &DbSecrets)
        ensures
            r == self.db,
    {
        &self.db
    }

    /// The chat credentials.
    pub fn discord(&self) -> (r: &DiscordSecrets)
        ensures
            r == self.discord,
    {
        &self.discord
    }

    /// The webhook settings.
    pub fn webhook(&self) -> (r: &WebhookSecrets)
        ensures
            r == self.webhook,
    {
        &self.webhook
    }
}

impl DbSecrets {
    /// Database settings with this connection URL.
    pub fn new(url: String) -> (r: DbSecrets)
        ensures
            r.url == url,
    {
        DbSecrets { url }
    }

    /// The connection URL.
    pub fn url(&self) -> (r: &String)
        ensures
            r == self.url,
    {
        &self.url
    }
}

impl DiscordSecrets {
    /// Chat credentials with this token.
    pub fn new(token: String) -> (r: DiscordSecrets)
        ensures
            r.token == token,
    {
        DiscordSecrets { token }
    }

    /// The chat token.
    pub fn token(&self) -> (r: &String)
        ensures
            r == self.token,
    {
        &self.token
    }
}

impl WebhookSecrets {
    /// Webhook settings with this shared secret.
    pub fn new(secret: String) -> (r: WebhookSecrets)
        ensures
            r.secret == secret,
    {
        WebhookSecrets { secret }
    }

    /// The shared webhook secret.
    pub fn secret(&self) -> (r: &String)
        ensures
            r == self.secret,
    {
        &self.secret
    }
}

} // verus!
