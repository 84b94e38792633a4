use vnc::protocol::{AppleAuthHandshake, AppleAuthResponse, PixelFormat, ServerInit, Version};
use vnc::session::{ClientHandshake, ClientStep, ServerHandshake, ServerStep, State};
use vnc::{Error, Reader};

fn demo_init() -> ServerInit {
    ServerInit {
        framebuffer_width: 640,
        framebuffer_height: 480,
        pixel_format: PixelFormat::rgb8888(),
        name: String::from("demo"),
    }
}

fn demo_init_bytes() -> Vec<u8> {
    let mut bytes = vec![0x02, 0x80, 0x01, 0xE0];
    bytes.extend_from_slice(&[32, 24, 1, 1, 0, 255, 0, 255, 0, 255, 0, 8, 16, 0, 0, 0]);
    bytes.extend_from_slice(&[0, 0, 0, 4, b'd', b'e', b'm', b'o']);
    bytes
}

/// Steps the client on `input` and returns what it came to, how many bytes
/// it took and what it sent.
fn client_step(client: &mut ClientHandshake, input: &[u8]) -> (Result<ClientStep, Error>, usize, Vec<u8>) {
    let mut reader = Reader::new(input);
    let mut sent = Vec::new();
    let result = client.step(&mut reader, &mut sent);
    (result, input.len() - reader.available(), sent)
}

fn server_step(server: &mut ServerHandshake, input: &[u8]) -> (Result<ServerStep, Error>, usize, Vec<u8>) {
    let mut reader = Reader::new(input);
    let mut sent = Vec::new();
    let result = server.step(&mut reader, &mut sent);
    (result, input.len() - reader.available(), sent)
}

#[test]
fn handshake_3_8_without_authentication() {
    let mut to_client = Vec::new();
    let mut server = ServerHandshake::new(demo_init(), &mut to_client);
    assert_eq!(to_client, b"RFB 003.008\n");
    assert_eq!(server.state(), State::AwaitingVersion);
    let mut client = ClientHandshake::new(None, false, true);
    assert_eq!(client.state(), State::AwaitingVersion);

    let (result, taken, to_server) = client_step(&mut client, &to_client);
    assert_eq!(result, Ok(ClientStep::Continue));
    assert_eq!(taken, 12);
    assert_eq!(to_server, b"RFB 003.008\n");
    assert_eq!(client.state(), State::AwaitingSecurityList);
    assert_eq!(client.version(), Version::Rfb38);

    let (result, taken, to_client) = server_step(&mut server, &to_server);
    assert_eq!(result, Ok(ServerStep::Continue));
    assert_eq!(taken, 12);
    assert_eq!(to_client, vec![0x01, 0x01]);
    assert_eq!(server.state(), State::AwaitingSecurityList);

    let (result, taken, to_server) = client_step(&mut client, &to_client);
    assert_eq!(result, Ok(ClientStep::Continue));
    assert_eq!(taken, 2);
    assert_eq!(to_server, vec![0x01]);
    assert_eq!(client.state(), State::AwaitingSecurityResult);

    let (result, taken, to_client) = server_step(&mut server, &to_server);
    assert_eq!(result, Ok(ServerStep::Continue));
    assert_eq!(taken, 1);
    assert_eq!(to_client, vec![0x00, 0x00, 0x00, 0x00]);
    assert_eq!(server.state(), State::AwaitingInit);

    let (result, taken, to_server) = client_step(&mut client, &to_client);
    assert_eq!(result, Ok(ClientStep::Continue));
    assert_eq!(taken, 4);
    assert_eq!(to_server, vec![0x01]);
    assert_eq!(client.state(), State::AwaitingInit);

    let (result, taken, to_client) = server_step(&mut server, &to_server);
    assert_eq!(result, Ok(ServerStep::Established { shared: true }));
    assert_eq!(taken, 1);
    assert_eq!(to_client, demo_init_bytes());
    assert_eq!(server.state(), State::Established);

    let (result, taken, to_server) = client_step(&mut client, &to_client);
    assert_eq!(result, Ok(ClientStep::Established(demo_init())));
    assert_eq!(taken, to_client.len());
    assert!(to_server.is_empty());
    assert_eq!(client.state(), State::Established);

    assert_eq!(client_step(&mut client, &[1, 2, 3]), (Ok(ClientStep::Done), 0, vec![]));
    assert_eq!(server_step(&mut server, &[1, 2, 3]), (Ok(ServerStep::Done), 0, vec![]));
    assert_eq!(client.state(), State::Established);
    assert_eq!(server.state(), State::Established);
}

#[test]
fn handshake_3_8_rejection() {
    let mut client = ClientHandshake::new(None, false, true);
    let (result, _, echo) = client_step(&mut client, b"RFB 003.008\n");
    assert_eq!(result, Ok(ClientStep::Continue));
    assert_eq!(echo, b"RFB 003.008\n");
    let refusal = [0x00, 0x00, 0x00, 0x00, 0x05, b'h', b'e', b'l', b'l', b'o'];
    let (result, taken, sent) = client_step(&mut client, &refusal);
    assert_eq!(result, Err(Error::Server(String::from("hello"))));
    assert_eq!(taken, 10);
    assert!(sent.is_empty());
    assert_eq!(client.state(), State::Closed);
    assert_eq!(client_step(&mut client, &refusal), (Err(Error::Disconnected), 0, vec![]));
}

#[test]
fn client_waits_for_whole_messages() {
    let mut client = ClientHandshake::new(None, false, false);
    for cut in 0..12 {
        assert_eq!(client_step(&mut client, &b"RFB 003.007\n"[..cut]), (Ok(ClientStep::NeedMore), 0, vec![]));
        assert_eq!(client.state(), State::AwaitingVersion);
    }
    assert_eq!(client_step(&mut client, b"RFB 003.007\nrest"), (Ok(ClientStep::Continue), 12, b"RFB 003.007\n".to_vec()));
    assert_eq!(client.version(), Version::Rfb37);
    assert_eq!(client_step(&mut client, &[]), (Ok(ClientStep::NeedMore), 0, vec![]));
    assert_eq!(client_step(&mut client, &[2, 2]), (Ok(ClientStep::NeedMore), 0, vec![]));
    let refusal = [0x00, 0x00, 0x00, 0x00, 0x05, b'h', b'e', b'l', b'l', b'o'];
    for cut in 0..refusal.len() {
        assert_eq!(client_step(&mut client, &refusal[..cut]), (Ok(ClientStep::NeedMore), 0, vec![]));
    }
    assert_eq!(client.state(), State::AwaitingSecurityList);
}

#[test]
fn client_3_7_skips_the_security_result_without_authentication() {
    let mut client = ClientHandshake::new(Some(b"secret".to_vec()), true, false);
    client_step(&mut client, b"RFB 003.007\n").0.unwrap();
    let (result, taken, sent) = client_step(&mut client, &[2, 16, 1]);
    assert_eq!(result, Ok(ClientStep::Continue));
    assert_eq!(taken, 3);
    assert_eq!(sent, vec![1, 0]);
    assert_eq!(client.state(), State::AwaitingInit);
    let (result, _, _) = client_step(&mut client, &demo_init_bytes());
    assert_eq!(result, Ok(ClientStep::Established(demo_init())));
}

#[test]
fn client_3_3_takes_the_type_the_server_names() {
    let mut client = ClientHandshake::new(None, false, true);
    assert_eq!(client_step(&mut client, b"RFB 003.003\n"), (Ok(ClientStep::Continue), 12, b"RFB 003.003\n".to_vec()));
    assert_eq!(client_step(&mut client, &[0, 0, 0]), (Ok(ClientStep::NeedMore), 0, vec![]));
    assert_eq!(client_step(&mut client, &[0, 0, 0, 1]), (Ok(ClientStep::Continue), 4, vec![1]));
    assert_eq!(client.state(), State::AwaitingInit);

    let mut client = ClientHandshake::new(None, false, true);
    client_step(&mut client, b"RFB 003.003\n").0.unwrap();
    assert_eq!(client_step(&mut client, &[0, 0, 0, 2]), (Err(Error::AuthenticationUnavailable), 4, vec![]));
    assert_eq!(client.state(), State::Closed);

    let mut client = ClientHandshake::new(Some(b"secret".to_vec()), false, true);
    client_step(&mut client, b"RFB 003.003\n").0.unwrap();
    assert_eq!(client_step(&mut client, &[0, 0, 0, 2]), (Ok(ClientStep::Continue), 4, vec![]));
    assert_eq!(client.state(), State::AwaitingSecurityResult);

    let mut client = ClientHandshake::new(Some(b"secret".to_vec()), true, true);
    client_step(&mut client, b"RFB 003.003\n").0.unwrap();
    assert_eq!(
        client_step(&mut client, &[0, 0, 0, 0, 0, 0, 0, 2, b'n', b'o']),
        (Err(Error::Server(String::from("no"))), 10, vec![])
    );

    let mut client = ClientHandshake::new(Some(b"secret".to_vec()), true, true);
    client_step(&mut client, b"RFB 003.003\n").0.unwrap();
    assert_eq!(client_step(&mut client, &[0, 0, 0, 5]), (Err(Error::AuthenticationUnavailable), 4, vec![]));
}

#[test]
fn client_prefers_vnc_then_apple_then_none() {
    let offer = [4u8, 1, 30, 2, 77];
    let cases = [(true, true, 2u8), (true, false, 2), (false, true, 30), (false, false, 1)];
    for (vnc, apple, expected) in cases {
        let mut client = ClientHandshake::new(if vnc { Some(vec![1, 2, 3]) } else { None }, apple, true);
        client_step(&mut client, b"RFB 003.008\n").0.unwrap();
        assert_eq!(client_step(&mut client, &offer), (Ok(ClientStep::Continue), 5, vec![expected]));
        assert_eq!(client.state(), State::AwaitingSecurityResult);
    }
    let mut client = ClientHandshake::new(Some(b"secret".to_vec()), false, true);
    client_step(&mut client, b"RFB 003.008\n").0.unwrap();
    assert_eq!(client_step(&mut client, &[2, 30, 1]), (Ok(ClientStep::Continue), 3, vec![1]));
}

#[test]
fn client_without_a_shared_type_fails() {
    let mut client = ClientHandshake::new(None, false, true);
    client_step(&mut client, b"RFB 003.008\n").0.unwrap();
    assert_eq!(client_step(&mut client, &[2, 2, 30]), (Err(Error::AuthenticationUnavailable), 3, vec![]));
    assert_eq!(client.state(), State::Closed);
    let mut client = ClientHandshake::new(Some(b"secret".to_vec()), true, true);
    client_step(&mut client, b"RFB 003.008\n").0.unwrap();
    assert_eq!(client_step(&mut client, &[1, 19]), (Err(Error::AuthenticationUnavailable), 2, vec![]));
}

#[test]
fn client_vnc_authentication() {
    let mut client = ClientHandshake::new(Some(b"password".to_vec()), false, false);
    client_step(&mut client, b"RFB 003.008\n").0.unwrap();
    assert_eq!(client_step(&mut client, &[1, 2]), (Ok(ClientStep::Continue), 2, vec![2]));
    let challenge: Vec<u8> = (0..16).collect();
    assert_eq!(client_step(&mut client, &challenge[..15]), (Ok(ClientStep::NeedMore), 0, vec![]));
    assert_eq!(client.state(), State::AwaitingSecurityResult);
    let mut input = challenge.clone();
    input.extend_from_slice(&[0, 0, 0, 0]);
    let mut reader = Reader::new(&input);
    let mut sent = Vec::new();
    assert_eq!(client.step(&mut reader, &mut sent), Ok(ClientStep::Continue));
    assert_eq!(reader.available(), 4);
    assert_eq!(
        sent,
        vec![0xB8, 0x66, 0x92, 0x41, 0x25, 0xC8, 0xEE, 0xBB, 0x9D, 0xEB, 0xC1, 0xDB, 0x61, 0xC5, 0x38, 0xE2]
    );
    assert_eq!(client.state(), State::AwaitingSecurityResult);
    let mut sent = Vec::new();
    assert_eq!(client.step(&mut reader, &mut sent), Ok(ClientStep::Continue));
    assert_eq!(sent, vec![0]);
    assert_eq!(client.state(), State::AwaitingInit);
}

#[test]
fn client_authentication_failure_carries_the_reason_under_3_8() {
    let mut client = ClientHandshake::new(None, false, false);
    client_step(&mut client, b"RFB 003.008\n").0.unwrap();
    client_step(&mut client, &[1, 1]).0.unwrap();
    assert_eq!(client_step(&mut client, &[0, 0, 0, 1]), (Ok(ClientStep::NeedMore), 0, vec![]));
    assert_eq!(client_step(&mut client, &[0, 0, 0, 1, 0, 0, 0, 3, b'b', b'a']), (Ok(ClientStep::NeedMore), 0, vec![]));
    assert_eq!(
        client_step(&mut client, &[0, 0, 0, 1, 0, 0, 0, 3, b'b', b'a', b'd']),
        (Err(Error::AuthenticationFailure(String::from("bad"))), 11, vec![])
    );
    assert_eq!(client.state(), State::Closed);
}

#[test]
fn client_authentication_failure_has_no_reason_before_3_8() {
    let mut client = ClientHandshake::new(Some(b"secret".to_vec()), false, false);
    client_step(&mut client, b"RFB 003.007\n").0.unwrap();
    client_step(&mut client, &[1, 2]).0.unwrap();
    let mut input = vec![0u8; 16];
    input.extend_from_slice(&[0, 0, 0, 1]);
    let mut reader = Reader::new(&input);
    let mut sent = Vec::new();
    assert_eq!(client.step(&mut reader, &mut sent), Ok(ClientStep::Continue));
    assert_eq!(sent.len(), 16);
    assert_eq!(client.step(&mut reader, &mut sent), Err(Error::AuthenticationFailure(String::new())));
    assert_eq!(client.state(), State::Closed);
}

#[test]
fn client_bad_security_result_is_unexpected() {
    let mut client = ClientHandshake::new(None, false, false);
    client_step(&mut client, b"RFB 003.008\n").0.unwrap();
    client_step(&mut client, &[1, 1]).0.unwrap();
    assert_eq!(client_step(&mut client, &[0, 0, 0, 2]), (Err(Error::Unexpected("security result")), 4, vec![]));
    assert_eq!(client.state(), State::Closed);
}

#[test]
fn client_bad_version_is_unexpected() {
    let mut client = ClientHandshake::new(None, false, false);
    assert_eq!(client_step(&mut client, b"RFB 004.000\n"), (Err(Error::Unexpected("protocol version")), 12, vec![]));
    assert_eq!(client.state(), State::Closed);
    let mut client = ClientHandshake::new(None, false, false);
    assert_eq!(client_step(&mut client, b"RFB 003.889\n"), (Ok(ClientStep::Continue), 12, b"RFB 003.008\n".to_vec()));
    assert_eq!(client.version(), Version::Rfb38);
}

#[test]
fn client_apple_authentication() {
    let mut client = ClientHandshake::new(None, true, false);
    client_step(&mut client, b"RFB 003.008\n").0.unwrap();
    assert_eq!(client_step(&mut client, &[2, 1, 30]), (Ok(ClientStep::Continue), 3, vec![30]));
    let exchange = [0u8, 2, 0, 2, 0xAA, 0xBB, 0xCC, 0xDD];
    assert_eq!(client_step(&mut client, &exchange[..7]), (Ok(ClientStep::NeedMore), 0, vec![]));
    let expected = AppleAuthHandshake { generator: 2, prime: vec![0xAA, 0xBB], peer_key: vec![0xCC, 0xDD] };
    assert_eq!(client_step(&mut client, &exchange), (Ok(ClientStep::AppleChallenge(expected)), 0, vec![]));
    let response = AppleAuthResponse { ciphertext: [9u8; 128], pub_key: vec![1, 2] };
    let mut reader = Reader::new(&exchange);
    let mut sent = Vec::new();
    assert_eq!(client.respond_apple(&mut reader, &mut sent, &response), Ok(ClientStep::Continue));
    assert_eq!(reader.available(), 0);
    assert_eq!(sent.len(), 130);
    assert_eq!(&sent[128..], &[1, 2]);
    assert_eq!(client_step(&mut client, &[0, 0, 0, 0]), (Ok(ClientStep::Continue), 4, vec![0]));
}

#[test]
fn client_response_out_of_turn_closes() {
    let response = AppleAuthResponse { ciphertext: [0u8; 128], pub_key: vec![] };
    let mut client = ClientHandshake::new(None, true, false);
    let mut reader = Reader::new(&[0u8; 16]);
    let mut sent = Vec::new();
    assert_eq!(client.respond_apple(&mut reader, &mut sent, &response), Err(Error::Unexpected("authentication response")));
    assert_eq!(reader.available(), 16);
    assert!(sent.is_empty());
    assert_eq!(client.state(), State::Closed);
    assert_eq!(client.respond_apple(&mut reader, &mut sent, &response), Err(Error::Disconnected));
}

#[test]
fn client_close_is_final() {
    let mut client = ClientHandshake::new(None, false, false);
    client.close();
    assert_eq!(client.state(), State::Closed);
    assert_eq!(client_step(&mut client, b"RFB 003.008\n"), (Err(Error::Disconnected), 0, vec![]));
    assert_eq!(client.state(), State::Closed);
}

#[test]
fn server_3_3_names_the_type_and_sends_no_result() {
    let mut greeting = Vec::new();
    let mut server = ServerHandshake::new(demo_init(), &mut greeting);
    assert_eq!(server_step(&mut server, b"RFB 003.003\n"), (Ok(ServerStep::Continue), 12, vec![0, 0, 0, 1]));
    assert_eq!(server.version(), Version::Rfb33);
    assert_eq!(server.state(), State::AwaitingInit);
    assert_eq!(server_step(&mut server, &[]), (Ok(ServerStep::NeedMore), 0, vec![]));
    assert_eq!(server_step(&mut server, &[0]), (Ok(ServerStep::Established { shared: false }), 1, demo_init_bytes()));
}

#[test]
fn server_3_7_sends_no_result() {
    let mut greeting = Vec::new();
    let mut server = ServerHandshake::new(demo_init(), &mut greeting);
    assert_eq!(server_step(&mut server, b"RFB 003.007\n"), (Ok(ServerStep::Continue), 12, vec![1, 1]));
    assert_eq!(server_step(&mut server, &[1]), (Ok(ServerStep::Continue), 1, vec![]));
    assert_eq!(server.state(), State::AwaitingInit);
}

#[test]
fn server_rejects_a_type_it_did_not_offer() {
    let mut greeting = Vec::new();
    let mut server = ServerHandshake::new(demo_init(), &mut greeting);
    server_step(&mut server, b"RFB 003.008\n").0.unwrap();
    let (result, taken, sent) = server_step(&mut server, &[2]);
    assert_eq!(result, Err(Error::AuthenticationUnavailable));
    assert_eq!(taken, 1);
    let mut expected = vec![0, 0, 0, 1, 0, 0, 0, 25];
    expected.extend_from_slice(b"unsupported security type");
    assert_eq!(sent, expected);
    assert_eq!(server.state(), State::Closed);
    assert_eq!(server_step(&mut server, &[1]), (Err(Error::Disconnected), 0, vec![]));

    let mut server = ServerHandshake::new(demo_init(), &mut greeting);
    server_step(&mut server, b"RFB 003.007\n").0.unwrap();
    assert_eq!(server_step(&mut server, &[30]), (Err(Error::AuthenticationUnavailable), 1, vec![0, 0, 0, 1]));
}

#[test]
fn server_bad_version_is_unexpected() {
    let mut greeting = Vec::new();
    let mut server = ServerHandshake::new(demo_init(), &mut greeting);
    assert_eq!(server_step(&mut server, b"RFB 003.00"), (Ok(ServerStep::NeedMore), 0, vec![]));
    assert_eq!(server_step(&mut server, b"RFB 003.005\n"), (Err(Error::Unexpected("protocol version")), 12, vec![]));
    assert_eq!(server.state(), State::Closed);
}

#[test]
fn server_with_a_name_outside_latin1_fails_at_the_end() {
    let mut greeting = Vec::new();
    let init = ServerInit { name: String::from("\u{263a}"), ..demo_init() };
    let mut server = ServerHandshake::new(init, &mut greeting);
    server_step(&mut server, b"RFB 003.008\n").0.unwrap();
    server_step(&mut server, &[1]).0.unwrap();
    assert_eq!(server_step(&mut server, &[1]), (Err(Error::Unexpected("string character")), 1, vec![]));
    assert_eq!(server.state(), State::Closed);
}

#[test]
fn server_close_is_final() {
    let mut greeting = Vec::new();
    let mut server = ServerHandshake::new(demo_init(), &mut greeting);
    server.close();
    assert_eq!(server_step(&mut server, b"RFB 003.008\n"), (Err(Error::Disconnected), 0, vec![]));
}
