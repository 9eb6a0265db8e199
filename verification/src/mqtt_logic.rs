//! From a record to the message that is published for it.
//!
//! Every record becomes one message on the topic `person`, asked to be
//! delivered at least once and not retained by the broker. Its payload is a
//! JSON object with the fields `id`, `name` and `age`, in this order and
//! without any white space.

use vstd::prelude::*;
use vstd::string::*;

use crate::models::{Person, PersonModel};
use crate::number::{decimal_text, write_decimal};

verus! {

/// Seconds between two keep-alive packets of the connection to the broker.
pub const KEEP_ALIVE_SECS: u64 = 5;

/// Number of requests that may wait between the client and its connection.
pub const REQUEST_CAPACITY: usize = 10;

/// How a connection to the broker is to be set up.
#[derive(Debug, PartialEq, Eq)]
pub struct MqttSettings {
    pub client_id: String,
    pub host: String,
    pub port: u16,
    pub keep_alive_secs: u64,
    pub request_capacity: usize,
}

/// The settings of the connection of a client with the given name to the
/// broker at the given address.
pub fn init_mqtt(id: &str, host: &str, port: u16) -> (settings: MqttSettings)
    ensures
        settings.client_id@ == id@,
        settings.host@ == host@,
        settings.port == port,
        settings.keep_alive_secs == KEEP_ALIVE_SECS,
        settings.request_capacity == REQUEST_CAPACITY,
{
    MqttSettings {
        client_id: id.to_owned(),
        host: host.to_owned(),
        port,
        keep_alive_secs: KEEP_ALIVE_SECS,
        request_capacity: REQUEST_CAPACITY,
    }
}

/// The delivery guarantee that a message asks for.
#[derive(Debug, Clone, Copy, PartialEq, Eq)]
pub enum QoS {
    AtMostOnce,
    AtLeastOnce,
    ExactlyOnce,
}

/// A message for the transport.
#[derive(Debug, PartialEq, Eq)]
pub struct Publication {
    pub topic: String,
    pub qos: QoS,
    pub retain: bool,
    pub payload: Vec<u8>,
}

/// The mathematical value of a [`Publication`].
pub ghost struct PublicationModel {
    pub topic: Seq<char>,
    pub qos: QoS,
    pub retain: bool,
    pub payload: Seq<u8>,
}

impl View for Publication {
    type V = PublicationModel;

    open spec fn view(&self) -> PublicationModel {
        PublicationModel {
            topic: self.topic@,
            qos: self.qos,
            retain: self.retain,
            payload: self.payload@,
        }
    }
}

impl DeepView for Publication {
    type V = PublicationModel;

    open spec fn deep_view(&self) -> PublicationModel {
        self@
    }
}

/// Why a record gave no message.
#[derive(Debug, Clone, Copy, PartialEq, Eq)]
pub enum PublishError {
    /// The record could not be written as JSON.
    Serialize,
}

/// The JSON string literal for a text, quotes included, as
/// `serde_json::to_vec` writes it: `None` where it reports an error.
pub uninterp spec fn json_string(text: Seq<char>) -> Option<Seq<u8>>;

#[verifier::external_type_specification]
#[verifier::external_body]
pub struct ExJsonError(serde_json::Error);

/// Calls `serde_json::to_vec` on a text.
///
/// How the text is quoted and escaped is not proved here; the contract only
/// gives the result its name.
#[verifier::external_body]
fn write_json_string(text: &str) -> (written: Result<Vec<u8>, serde_json::Error>)
    ensures
        match written {
            Ok(bytes) => json_string(text@) == Some(bytes@),
            Err(_) => json_string(text@) is None,
        },
{
    serde_json::to_vec(text)
}

/// The payload of the message for a record, given the JSON string literal of
/// its name.
pub open spec fn payload_with(person: PersonModel, name: Seq<u8>) -> Seq<u8> {
    "{\"id\":".spec_bytes() + decimal_text(person.id as nat) + ",\"name\":".spec_bytes() + name
        + ",\"age\":".spec_bytes() + decimal_text(person.age as nat) + "}".spec_bytes()
}

/// The payload of the message for a record: `None` where its name cannot be
/// written as JSON.
pub open spec fn payload_of(person: PersonModel) -> Option<Seq<u8>> {
    match json_string(person.first_name) {
        Some(name) => Some(payload_with(person, name)),
        None => None,
    }
}

/// The message for a record with the given payload.
pub open spec fn publication_with(payload: Seq<u8>) -> PublicationModel {
    PublicationModel { topic: "person"@, qos: QoS::AtLeastOnce, retain: false, payload }
}

/// The message for a record, or why it has none.
pub open spec fn publication_of(person: PersonModel) -> Result<PublicationModel, PublishError> {
    match payload_of(person) {
        Some(payload) => Ok(publication_with(payload)),
        None => Err(PublishError::Serialize),
    }
}

/// The mathematical value of the outcome of building a message.
pub open spec fn publication_outcome(outcome: Result<Publication, PublishError>) -> Result<
    PublicationModel,
    PublishError,
> {
    match outcome {
        Ok(publication) => Ok(publication@),
        Err(error) => Err(error),
    }
}

/// Appends `bytes` to `out`.
fn append_bytes(out: &mut Vec<u8>, bytes: &[u8])
    ensures
        final(out)@ == old(out)@ + bytes@,
{
    let mut i: usize = 0;
    while i < bytes.len()
        invariant
            i <= bytes.len(),
            out@ == old(out)@ + bytes@.take(i as int),
        decreases bytes.len() - i,
    {
        out.push(bytes[i]);
        proof {
            assert(bytes@.take(i + 1) =~= bytes@.take(i as int).push(bytes@[i as int]));
        }
        i += 1;
    }
    proof {
        assert(bytes@.take(i as int) =~= bytes@);
    }
}

/// Frames the payload of the message for a record around the JSON string
/// literal of its name.
pub fn frame_payload(person: &Person, name: &[u8]) -> (payload: Vec<u8>)
    ensures
        payload@ == payload_with(person@, name@),
{
    let mut payload: Vec<u8> = Vec::new();
    append_bytes(&mut payload, "{\"id\":".as_bytes());
    write_decimal(person.id, &mut payload);
    append_bytes(&mut payload, ",\"name\":".as_bytes());
    append_bytes(&mut payload, name);
    append_bytes(&mut payload, ",\"age\":".as_bytes());
    write_decimal(person.age as u64, &mut payload);
    append_bytes(&mut payload, "}".as_bytes());
    payload
}

/// Builds the message that publishes a record.
///
/// The message goes to the topic `person`, asks for delivery at least once
/// and is not retained. No message is built where the name of the record
/// cannot be written as JSON.
pub fn publish_person(person: &Person) -> (outcome: Result<Publication, PublishError>)
    ensures
        publication_outcome(outcome) == publication_of(person@),
{
    match write_json_string(person.first_name.as_str()) {
        Ok(name) => {
            let payload = frame_payload(person, name.as_slice());
            Ok(
                Publication {
                    topic: "person".to_owned(),
                    qos: QoS::AtLeastOnce,
                    retain: false,
                    payload,
                },
            )
        },
        Err(_) => Err(PublishError::Serialize),
    }
}

} // verus!
