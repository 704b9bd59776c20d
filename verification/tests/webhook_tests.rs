use code_intel::embedding::{BedrockProvider, ProviderConfig, ProviderKind, resolve_provider, trim_trailing};
use code_intel::verification::{
    header_has_token, verify_custom_header, verify_github_hmac, verify_standard_webhooks,
};
use code_intel::webhooks::{
    evaluate_webhook_request, make_webhook, Delivery, EventIdGen, Webhook, WebhookOutcome,
    WebhookStore, WebhookUpdate,
};

#[test]
fn github_hmac_accepts_exactly_the_true_tag() {
    let body = b"{\"x\":1}";
    let good = "sha256=151244191e9fd3d055f407d2825d287f860ad89417a2dcd414fff80158ff976a";
    assert!(verify_github_hmac("abc", body, good));
    let bad = "sha256=0000000000000000000000000000000000000000000000000000000000000000";
    assert!(!verify_github_hmac("abc", body, bad));
    assert!(!verify_github_hmac("abc", body, "151244191e9fd3d055f407d2825d287f860ad89417a2dcd414fff80158ff976a"));
    assert!(!verify_github_hmac("wrong-secret", body, good));
}

#[test]
fn standard_webhooks_accepts_a_listed_token() {
    let body = b"{\"x\":1}";
    // The secret decodes from base64 to the actual key bytes.
    let sig = "v1,IPLSThpN/VJtefLLZtazm/xzaU8cBZmoGQzcFD2PsAw=";
    assert!(verify_standard_webhooks("d2hzZWM=", body, "msg_1", "1700000000", sig));
    let multi = format!("v0,garbage {sig}");
    assert!(verify_standard_webhooks("d2hzZWM=", body, "msg_1", "1700000000", &multi));
    assert!(!verify_standard_webhooks("d2hzZWM=", body, "msg_1", "1700000001", sig));
    assert!(!verify_standard_webhooks("d2hzZWM=", body, "msg_2", "1700000000", sig));
    assert!(!verify_standard_webhooks("d2hzZWM=", body, "msg_1", "1700000000", "v1,AAAA"));
}

#[test]
fn standard_webhooks_uses_raw_secret_when_not_base64() {
    let body = b"{\"x\":1}";
    let sig = "v1,KMDHTZRITMCUrLQVPZ2ujPzxsrqQllQsKl86kQVo6T8=";
    assert!(verify_standard_webhooks("ab!", body, "msg_1", "1700000000", sig));
}

#[test]
fn token_search_is_whitespace_separated() {
    assert!(header_has_token("a bb  ccc", "bb"));
    assert!(header_has_token("bb", "bb"));
    assert!(!header_has_token("abb bbc", "bb"));
    assert!(!header_has_token("", "bb"));
}

#[test]
fn custom_header_compares_exactly() {
    assert!(verify_custom_header("v", "v"));
    assert!(!verify_custom_header("v", "V"));
}

fn hook(method: &str, secret: Option<&str>, status: &str) -> Webhook {
    Webhook {
        id: "wh_1".to_string(),
        name: "n".to_string(),
        event_type: "evt".to_string(),
        verification_method: method.to_string(),
        verification_secret: secret.map(|s| s.to_string()),
        status: status.to_string(),
        url: String::new(),
        trigger_count: 0,
        last_triggered: None,
        created_at: "t0".to_string(),
    }
}

#[test]
fn request_outcomes_cover_the_status_codes() {
    let headers: Vec<(String, String)> = vec![];
    assert!(matches!(
        evaluate_webhook_request(None, &headers, b"{}"),
        WebhookOutcome::NotFound
    ));
    let paused = hook("none", None, "paused");
    assert!(matches!(
        evaluate_webhook_request(Some(&paused), &headers, b"{}"),
        WebhookOutcome::Paused
    ));
    let open = hook("none", None, "active");
    assert!(matches!(
        evaluate_webhook_request(Some(&open), &headers, b"{\"hello\":\"world\"}"),
        WebhookOutcome::Accepted
    ));
    let gh = hook("github-hmac", Some("abc"), "active");
    assert!(matches!(
        evaluate_webhook_request(Some(&gh), &headers, b"{\"x\":1}"),
        WebhookOutcome::Unauthorized
    ));
    let signed = vec![(
        "X-Hub-Signature-256".to_string(),
        "sha256=151244191e9fd3d055f407d2825d287f860ad89417a2dcd414fff80158ff976a".to_string(),
    )];
    assert!(matches!(
        evaluate_webhook_request(Some(&gh), &signed, b"{\"x\":1}"),
        WebhookOutcome::Accepted
    ));
    let custom = hook("custom-header", Some("X-Api-Key:open-sesame"), "active");
    let with = vec![("x-api-key".to_string(), "open-sesame".to_string())];
    assert!(matches!(
        evaluate_webhook_request(Some(&custom), &with, b"{}"),
        WebhookOutcome::Accepted
    ));
    let unknown_method = hook("telepathy", None, "active");
    assert!(matches!(
        evaluate_webhook_request(Some(&unknown_method), &headers, b"{}"),
        WebhookOutcome::Unauthorized
    ));
}

#[test]
fn made_webhooks_carry_their_ingress_url() {
    let wh = make_webhook("n", "evt", "none", None, "http://127.0.0.1:8080", "t0");
    assert_eq!(wh.id.len(), 11);
    assert!(wh.id.starts_with("wh_"));
    assert_eq!(wh.url, format!("http://127.0.0.1:8080/hooks/{}", wh.id));
    assert_eq!(wh.status, "active");
    assert_eq!(wh.trigger_count, 0);
}

#[test]
fn store_crud_round_trip() {
    let mut store = WebhookStore::new();
    let wh = hook("none", None, "active");
    store.insert(wh);
    assert!(store.get("wh_1").is_some());
    let updated = store
        .update(
            "wh_1",
            WebhookUpdate {
                name: Some("renamed".to_string()),
                event_type: None,
                verification_method: None,
                verification_secret: Some(Some("s".to_string())),
                status: Some("paused".to_string()),
            },
        )
        .unwrap();
    assert_eq!(updated.name, "renamed");
    assert_eq!(updated.status, "paused");
    assert_eq!(updated.verification_secret.as_deref(), Some("s"));
    assert_eq!(updated.event_type, "evt");
    assert!(store.update("ghost", WebhookUpdate {
        name: None,
        event_type: None,
        verification_method: None,
        verification_secret: None,
        status: None,
    }).is_none());
    assert!(store.delete("wh_1"));
    assert!(!store.delete("wh_1"));
    assert!(store.get("wh_1").is_none());
}

fn delivery(n: u32) -> Delivery {
    Delivery {
        id: format!("d{n}"),
        webhook_id: "wh_1".to_string(),
        received_at: "t".to_string(),
        status: "success".to_string(),
        headers: vec![],
        body: "{}".to_string(),
    }
}

#[test]
fn delivery_ring_holds_fifty_and_evicts_oldest() {
    let mut store = WebhookStore::new();
    store.insert(hook("none", None, "active"));
    for n in 0..55 {
        store.record_delivery(delivery(n), "now");
    }
    let recent = store.get_deliveries("wh_1");
    assert_eq!(recent.len(), 50);
    // Newest first; the oldest five were evicted.
    assert_eq!(recent[0].id, "d54");
    assert_eq!(recent[49].id, "d5");
    let wh = store.get("wh_1").unwrap();
    assert_eq!(wh.trigger_count, 55);
    assert_eq!(wh.last_triggered.as_deref(), Some("now"));
    assert!(store.get_deliveries("ghost").is_empty());
}

#[test]
fn listing_orders_by_creation_time() {
    let mut store = WebhookStore::new();
    for (id, t) in [("wh_b", "2021-02"), ("wh_a", "2021-01"), ("wh_c", "2021-03")] {
        let mut wh = hook("none", None, "active");
        wh.id = id.to_string();
        wh.created_at = t.to_string();
        store.insert(wh);
    }
    let listed = store.list();
    let ids: Vec<&str> = listed.iter().map(|w| w.id.as_str()).collect();
    assert_eq!(ids, vec!["wh_a", "wh_b", "wh_c"]);
}

#[test]
fn event_ids_start_at_twenty_thousand() {
    let mut gen = EventIdGen::new();
    assert_eq!(gen.take(), 20000);
    assert_eq!(gen.take(), 20001);
}

#[test]
fn provider_defaults_and_selection() {
    let config = ProviderConfig::default();
    assert_eq!(config.provider, "ollama");
    assert_eq!(config.base_url, "http://localhost:11434");
    assert_eq!(config.model, "nomic-embed-text");
    assert_eq!(config.dimensions, 768);
    assert!(matches!(resolve_provider(&config), Ok(ProviderKind::Ollama)));
    let mut cloud = ProviderConfig::default();
    cloud.provider = "bedrock".to_string();
    assert!(matches!(resolve_provider(&cloud), Ok(ProviderKind::Bedrock)));
    cloud.provider = "mystery".to_string();
    assert_eq!(
        resolve_provider(&cloud).unwrap_err(),
        "Unknown embedding provider: mystery"
    );
}

#[test]
fn bedrock_substitutes_cloud_defaults() {
    let config = ProviderConfig::default();
    let b = BedrockProvider::new(&config);
    assert_eq!(b.model, "amazon.titan-embed-text-v2:0");
    assert_eq!(b.dimensions, 1024);
    assert_eq!(b.region, "us-east-1");
    let mut custom = ProviderConfig::default();
    custom.model = "my-model".to_string();
    custom.dimensions = 512;
    custom.aws_region = Some("eu-west-1".to_string());
    let b = BedrockProvider::new(&custom);
    assert_eq!(b.model, "my-model");
    assert_eq!(b.dimensions, 512);
    assert_eq!(b.region, "eu-west-1");
}

#[test]
fn base_urls_lose_trailing_slashes() {
    assert_eq!(trim_trailing("http://h:1/", '/'), "http://h:1");
    assert_eq!(trim_trailing("http://h:1///", '/'), "http://h:1");
    assert_eq!(trim_trailing("http://h:1", '/'), "http://h:1");
}
