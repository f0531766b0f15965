use streaming_core::encryption::{with_decrypted_payloads, with_encrypted_payloads};
use streaming_core::error::EngineError;
use streaming_core::identifier::Identifier;
use streaming_core::metadata::MetadataLog;
use streaming_core::partition::{Message, MessageState, PolledMessage, PollingConsumer, PollingStrategy};
use streaming_core::session::Session;
use streaming_core::shard::{IggyShard, PollingArgs};
use streaming_core::topic::{CompressionAlgorithm, Partitioning};
use streaming_core::users::{create_root_user, System};

fn xor(data: &[u8]) -> Vec<u8> {
    data.iter().map(|b| b ^ 0x5a).collect()
}

#[test]
fn encrypted_append_then_decrypted_poll_returns_same_payloads() {
    let mut system = System::new();
    let mut log = MetadataLog::new();
    system.load_users(Vec::new(), Some(create_root_user(None, None).unwrap()), &mut log).unwrap();
    system.add_client(1);
    let mut session = Session::new(1);
    system.login_user("iggy", "iggy", &mut session).unwrap();
    let mut shard = IggyShard::new(1, None);
    shard.create_stream(&system, 1, Some(1), "s".to_string()).unwrap();
    shard.create_topic(&system, 1, &Identifier::numeric(1), None, "t".to_string(), 1, None,
        CompressionAlgorithm::Uncompressed, None, None).unwrap();
    let payloads: Vec<Vec<u8>> = vec![b"hello".to_vec(), b"".to_vec(), vec![0, 255, 7]];
    let messages: Vec<Message> = payloads.iter().enumerate()
        .map(|(i, p)| Message { id: i as u128, state: MessageState::Available, checksum: 0, headers: Vec::new(), payload: p.clone() }).collect();
    let encrypted: Vec<Option<Vec<u8>>> = messages.iter().map(|m| Some(xor(&m.payload))).collect();
    let sealed = with_encrypted_payloads(messages, encrypted).unwrap();
    assert_eq!(sealed[0].payload, xor(b"hello"));
    shard.append_messages(&system, 1, &Identifier::numeric(1), &Identifier::numeric(1),
        &Partitioning::Balanced, sealed, 1).unwrap();
    let polled = shard.poll_messages(&system, 1, 1, PollingConsumer::Consumer(1), &Identifier::numeric(1),
        &Identifier::numeric(1), PollingArgs::new(PollingStrategy::First, 10, false)).unwrap();
    assert_eq!(polled[0].payload, xor(b"hello"));
    let decrypted: Vec<Option<Vec<u8>>> = polled.iter().map(|m| Some(xor(&m.payload))).collect();
    let opened = with_decrypted_payloads(polled, decrypted).unwrap();
    let got: Vec<Vec<u8>> = opened.iter().map(|m| m.payload.clone()).collect();
    assert_eq!(got, payloads);
    assert_eq!(opened[2].offset, 2);
}

#[test]
fn encryption_failure_aborts_batch() {
    let messages = vec![Message { id: 1, state: MessageState::Available, checksum: 0, headers: Vec::new(), payload: b"a".to_vec() }, Message { id: 2, state: MessageState::Available, checksum: 0, headers: Vec::new(), payload: b"b".to_vec() }];
    let results = vec![Some(b"x".to_vec()), None];
    assert_eq!(with_encrypted_payloads(messages, results).unwrap_err(), EngineError::CannotEncryptData);
    let short = vec![Message { id: 1, state: MessageState::Available, checksum: 0, headers: Vec::new(), payload: b"a".to_vec() }];
    assert_eq!(with_encrypted_payloads(short, Vec::new()).unwrap_err(), EngineError::InternalError);
}

#[test]
fn decryption_failure_fails_poll() {
    let polled = vec![PolledMessage { id: 1, state: MessageState::Available, offset: 0, timestamp: 3, checksum: 9, headers: vec![1, 2], payload: b"zz".to_vec() }];
    assert_eq!(with_decrypted_payloads(polled, vec![None]).unwrap_err(), EngineError::CannotDecryptData);
}
