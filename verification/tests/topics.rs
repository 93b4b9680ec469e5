use wasmbus_rpc::entity::WasmCloudEntity;
use wasmbus_rpc::entity::operation_url;
use wasmbus_rpc::rpc_client::rpc_topic;

fn actor(key: &str) -> WasmCloudEntity {
    WasmCloudEntity::new_actor(key.to_string())
}

fn provider(key: &str, link: &str) -> WasmCloudEntity {
    WasmCloudEntity::new_provider(key.to_string(), link.to_string())
}

#[test]
fn actor_topic_has_prefix_and_identity() {
    assert_eq!(rpc_topic(&actor("A2"), "default"), "wasmbus.rpc.default.A2");
}

#[test]
fn provider_topic_ends_with_link_name() {
    assert_eq!(rpc_topic(&provider("P1", "default"), "default"), "wasmbus.rpc.default.P1.default");
}

#[test]
fn provider_topic_has_one_segment_more_than_actor_topic() {
    let a = rpc_topic(&actor("MKEY"), "lattice");
    let p = rpc_topic(&provider("MKEY", "backend"), "lattice");
    assert_eq!(a.split('.').count(), 4);
    assert_eq!(p.split('.').count(), 5);
    assert_eq!(p.split('.').last(), Some("backend"));
    assert_eq!(p, format!("{}.backend", a));
}

#[test]
fn topic_with_empty_prefix_keeps_its_dots() {
    assert_eq!(rpc_topic(&actor("A"), ""), "wasmbus.rpc..A");
}

#[test]
fn distinct_entities_have_distinct_topics() {
    let topics = vec![
        rpc_topic(&actor("A"), "default"),
        rpc_topic(&actor("B"), "default"),
        rpc_topic(&provider("A", "x"), "default"),
        rpc_topic(&provider("A", "y"), "default"),
        rpc_topic(&provider("B", "x"), "default"),
    ];
    for i in 0..topics.len() {
        for j in 0..topics.len() {
            assert_eq!(topics[i] == topics[j], i == j);
        }
    }
}

#[test]
fn entity_with_link_name_is_a_provider() {
    assert!(provider("P1", "default").is_provider());
    assert!(!actor("A1").is_provider());
    assert!(!provider("P1", "").is_provider());
}

#[test]
fn constructors_fill_the_fields() {
    let a = actor("A1");
    assert_eq!(a.public_key, "A1");
    assert_eq!(a.link_name, "");
    let p = provider("P1", "default");
    assert_eq!(p.public_key, "P1");
    assert_eq!(p.link_name, "default");
}

#[test]
fn actor_url_is_scheme_and_identity() {
    assert_eq!(actor("A1").url(), "wasmbus://A1");
}

#[test]
fn provider_url_has_a_link_segment() {
    assert_eq!(provider("P1", "default").url(), "wasmbus://P1/default");
}

#[test]
fn operation_url_appends_the_operation() {
    assert_eq!(operation_url(&actor("A2"), "Hello"), "wasmbus://A2/Hello");
    assert_eq!(operation_url(&provider("P1", "default"), "Get"), "wasmbus://P1/default/Get");
    assert_eq!(operation_url(&actor("A2"), ""), "wasmbus://A2/");
}

#[test]
fn entities_with_plain_names_are_valid() {
    assert!(actor("MBCFOPM6JW2APJLXJD3Z5O4CN7CPYJ2B4FTKLJUR5YR5MITIU7HD3WD5").is_valid());
    assert!(provider("VAG3QITQQ2ODAOWB5TTQSDJ53XK3SHBEIFNK4AYJ5RKAX2UNSCAPHA5M", "default").is_valid());
    // a slash in the link name harms neither the topic nor the URL
    assert!(provider("P1", "a/b").is_valid());
}

#[test]
fn entities_with_separators_in_their_names_are_not_valid() {
    assert!(!actor("").is_valid());
    assert!(!actor("A.1").is_valid());
    assert!(!actor("A/1").is_valid());
    assert!(!provider("P1", "a.b").is_valid());
    assert!(!provider("", "default").is_valid());
}

#[test]
fn a_dotted_identity_can_collide_with_a_provider() {
    // why validity asks for identities without dots
    assert_eq!(rpc_topic(&actor("A.x"), "default"), rpc_topic(&provider("A", "x"), "default"));
    assert_eq!(actor("A/x").url(), provider("A", "x").url());
}
