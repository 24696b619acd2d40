//! Outside types that the library carries without looking inside.
use vstd::prelude::*;

verus! {

#[verifier::external_type_specification]
#[verifier::external_body]
pub struct ExWsError(async_tungstenite::tungstenite::Error);

#[verifier::external_type_specification]
#[verifier::external_body]
pub struct ExSerdeError(serde_json::Error);

#[verifier::external_type_specification]
#[verifier::external_body]
pub struct ExTopicData(twitch_api::pubsub::TopicData);

#[verifier::external_type_specification]
#[verifier::external_body]
pub struct ExDeserError(twitch_api::DeserError);

} // verus!
