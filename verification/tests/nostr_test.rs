use nostr_sdk::{Client, Keys, Kind, SubscriptionId};
use rs_p2_gateway::relay::GIFT_WRAP_KIND;

/// Basic smoke test for the nostr-sdk types behind the gateway.
#[test]
fn test_nostr_sdk_gift_wrap_types_exist() {
    let keys = Keys::generate();
    let pk = keys.public_key();
    assert!(!pk.to_string().is_empty());
    assert_eq!(Kind::GiftWrap, Kind::from(1059u16));
    assert_eq!(Kind::GiftWrap, Kind::from(GIFT_WRAP_KIND));

    let _client = Client::builder().signer(keys).build();
}

#[test]
fn test_subscription_id() {
    let sid = SubscriptionId::new("test-sub");
    assert_eq!(sid.to_string(), "test-sub");
}
