use proj::codec::{decode_project, encode_project};
use proj::common::Project;

fn sample(port: Option<u16>) -> Project {
    Project {
        name: "my-app".to_string(),
        id: 0x1234_5678_9abc_def0_1122_3344_5566_7788u128,
        created_at_millis: 1_700_000_000_123,
        root_dir: "/home/dev/projects/my-app".to_string(),
        port,
    }
}

#[test]
fn project_record_round_trips() {
    let p = sample(None);
    let doc = encode_project(&p);
    assert_eq!(decode_project(&doc), Some(p));

    let q = sample(Some(51515));
    let doc = encode_project(&q);
    assert_eq!(decode_project(&doc), Some(q));
}

#[test]
fn encoded_record_is_json_shaped() {
    let doc = encode_project(&Project {
        name: "alpha".to_string(),
        id: 7,
        created_at_millis: -5,
        root_dir: "/tmp/alpha".to_string(),
        port: Some(80),
    });
    assert_eq!(
        doc,
        "{\"name\":\"alpha\",\"id\":7,\"created_at_millis\":-5,\"root_dir\":\"/tmp/alpha\",\"port\":80}"
    );
}

#[test]
fn round_trip_survives_quotes_and_backslashes() {
    let p = Project {
        name: "alpha".to_string(),
        id: u128::MAX,
        created_at_millis: i64::MIN,
        root_dir: "C:\\odd \"dir\"\\path".to_string(),
        port: Some(65535),
    };
    let doc = encode_project(&p);
    assert_eq!(decode_project(&doc), Some(p));
}

#[test]
fn decoder_rejects_other_documents() {
    assert_eq!(decode_project(""), None);
    assert_eq!(decode_project("{}"), None);
    assert_eq!(decode_project("{\"name\":\"alpha\"}"), None);
    // trailing garbage
    let p = sample(None);
    let mut doc = encode_project(&p);
    doc.push(' ');
    assert_eq!(decode_project(&doc), None);
    // an id beyond 128 bits
    assert_eq!(
        decode_project(
            "{\"name\":\"a\",\"id\":340282366920938463463374607431768211456,\
             \"created_at_millis\":0,\"root_dir\":\"/x\",\"port\":null}"
        ),
        None
    );
}
