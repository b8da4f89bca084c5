use aisix::config::{ModelConfig, PolicyConfig, RateLimitConfig};
use aisix::listing::sort_by_id;

fn model(id: &str) -> ModelConfig {
    ModelConfig {
        id: id.to_string(),
        provider_id: "provider-1".to_string(),
        upstream_model: "gpt-4o-mini".to_string(),
        policy_id: None,
        rate_limit: None,
        cache: None,
    }
}

fn policy(id: &str) -> PolicyConfig {
    PolicyConfig {
        id: id.to_string(),
        rate_limit: RateLimitConfig {
            rpm: None,
            tpm: None,
            concurrency: None,
        },
    }
}

#[test]
fn models_are_listed_in_id_order() {
    let sorted = sort_by_id(vec![model("gpt-b"), model("gpt-a"), model("mistral-small"), model("gpt-a")]);
    let ids: Vec<&str> = sorted.iter().map(|m| m.id.as_str()).collect();
    assert_eq!(ids, vec!["gpt-a", "gpt-a", "gpt-b", "mistral-small"]);
}

#[test]
fn id_order_is_byte_order_with_prefixes_first() {
    let sorted = sort_by_id(vec![policy("b"), policy("ab"), policy("a"), policy("B"), policy("é")]);
    let ids: Vec<&str> = sorted.iter().map(|p| p.id.as_str()).collect();
    assert_eq!(ids, vec!["B", "a", "ab", "b", "é"]);
}

#[test]
fn empty_listing_stays_empty() {
    let sorted: Vec<PolicyConfig> = sort_by_id(Vec::new());
    assert!(sorted.is_empty());
}
