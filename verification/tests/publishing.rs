use csv_importer::models::Person;
use csv_importer::mqtt_logic::{
    frame_payload, init_mqtt, publish_person, MqttSettings, Publication, QoS, KEEP_ALIVE_SECS,
    REQUEST_CAPACITY,
};

fn person(id: u64, first_name: &str, age: u8) -> Person {
    Person { id, first_name: first_name.to_string(), age }
}

fn payload(id: u64, first_name: &str, age: u8) -> String {
    String::from_utf8(publish_person(&person(id, first_name, age)).unwrap().payload).unwrap()
}

#[test]
fn message_of_a_record() {
    assert_eq!(
        publish_person(&person(1, "Peter", 45)),
        Ok(Publication {
            topic: "person".to_string(),
            qos: QoS::AtLeastOnce,
            retain: false,
            payload: b"{\"id\":1,\"name\":\"Peter\",\"age\":45}".to_vec(),
        })
    );
}

#[test]
fn payload_uses_the_output_names_in_order() {
    assert_eq!(payload(2, "Mary", 22), "{\"id\":2,\"name\":\"Mary\",\"age\":22}");
}

#[test]
fn payload_of_extreme_values() {
    assert_eq!(payload(0, "", 0), "{\"id\":0,\"name\":\"\",\"age\":0}");
    assert_eq!(
        payload(u64::MAX, "x", 255),
        "{\"id\":18446744073709551615,\"name\":\"x\",\"age\":255}"
    );
}

#[test]
fn name_is_escaped_as_json() {
    assert_eq!(
        payload(1, "a\"b\\c\nd\te\u{1}", 2),
        "{\"id\":1,\"name\":\"a\\\"b\\\\c\\nd\\te\\u0001\",\"age\":2}"
    );
}

#[test]
fn name_outside_ascii_is_written_as_it_is() {
    assert_eq!(payload(1, "Zoë 🦀", 2), "{\"id\":1,\"name\":\"Zoë 🦀\",\"age\":2}");
}

#[test]
fn payload_is_json_with_the_values_of_the_record() {
    for record in [person(1, "Peter", 45), person(77, "O\"Neil, \\ \u{7f}\r", 0), person(u64::MAX, "", 255)] {
        let message = publish_person(&record).unwrap();
        let value: serde_json::Value = serde_json::from_slice(&message.payload).unwrap();
        let object = value.as_object().unwrap();
        assert_eq!(object.len(), 3);
        assert_eq!(object["id"].as_u64(), Some(record.id));
        assert_eq!(object["name"].as_str(), Some(record.first_name.as_str()));
        assert_eq!(object["age"].as_u64(), Some(record.age as u64));
    }
}

#[test]
fn frame_is_built_around_the_given_name() {
    assert_eq!(
        frame_payload(&person(3, "ignored", 4), b"\"Ann\""),
        b"{\"id\":3,\"name\":\"Ann\",\"age\":4}".to_vec()
    );
    assert_eq!(frame_payload(&person(3, "ignored", 4), b""), b"{\"id\":3,\"name\":,\"age\":4}".to_vec());
}

#[test]
fn settings_of_the_connection() {
    assert_eq!(
        init_mqtt("rust-csv-importer", "localhost", 1883),
        MqttSettings {
            client_id: "rust-csv-importer".to_string(),
            host: "localhost".to_string(),
            port: 1883,
            keep_alive_secs: 5,
            request_capacity: 10,
        }
    );
    assert_eq!(KEEP_ALIVE_SECS, 5);
    assert_eq!(REQUEST_CAPACITY, 10);
}
