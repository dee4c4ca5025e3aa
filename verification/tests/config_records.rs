use blob_mirror::secrets::{
    DbSecrets, Discord, DiscordSecrets, Github, Redis, Secret, Secrets, Web, WebhookSecrets,
};

#[test]
fn whole_configuration_round_trips_through_its_fields() {
    let secret = Secret {
        discord: Discord {
            client_id: 12,
            client_secret: "cs".to_string(),
            token: "tk".to_string(),
        },
        github: Github {
            client_id: "gc".to_string(),
            client_secret: "gs".to_string(),
            slug: "mirror".to_string(),
            app_id: 7,
            webhook_secret: "wh".to_string(),
        },
        web: Web { port: 8000 },
        redis: Redis { addr: "localhost:6379".to_string() },
    };
    assert_eq!(secret.discord.client_id, 12);
    assert_eq!(secret.github.app_id, 7);
    assert_eq!(secret.web.port, 8000);
    assert_eq!(secret.redis.addr, "localhost:6379");
}

#[test]
fn assembled_secrets_hand_back_their_parts() {
    let s = Secrets::new(
        DbSecrets::new("redis://db".to_string()),
        DiscordSecrets::new("token".to_string()),
        WebhookSecrets::new("shared".to_string()),
    );
    assert_eq!(s.db().url(), "redis://db");
    assert_eq!(s.discord().token(), "token");
    assert_eq!(s.webhook().secret(), "shared");
}
