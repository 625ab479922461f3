use ja4::{
    assess_tshark_version, count_digits, decimal_text, half_rtt, hash12, hash12_of_digest,
    hex_token, is_grease, ja4, ja4h, ja4l_c, ja4l_s, ja4s, ja4ssh, ja4x, ja4x_extensions_raw,
    join_hex_list, max_value, meets_tshark_minimum, modal_length, offered_version,
    parse_tshark_version, sort_ascending, ssh_segment, without_grease, Certificate, ClientHello,
    Endpoint, FlowFingerprints, Handshake, HandshakeTracker, HttpRequest, PacketFields,
    certificates_of, client_hello_of, dec32, u16_text, http_request_of, ja4_cipher_raw,
    ja4_extension_raw, ja4_prefix, ja4_raw, ja4h_raw, ja4s_raw, ja4x_raw, observe,
    server_hello_of, Proto, Sender, ServerHello, SshPacket, Streams, Transport,
    VersionError,
};

#[test]
fn test_hash12() {
    assert_eq!(hash12("551d0f,551d25,551d11"), "aae71e8db6d7");
    assert_eq!(hash12(""), "000000000000");
}

#[test]
fn test_parse_tshark_version() {
    assert_eq!(
        parse_tshark_version("TShark (Wireshark) 4.0.8 (v4.0.8-0-g81696bb74857)."),
        Some("4.0.8")
    );
    assert_eq!(
        parse_tshark_version("TShark (Wireshark) 3.6.2 (Git v3.6.2 packaged as 3.6.2-2)"),
        Some("3.6.2")
    );
    assert_eq!(
        parse_tshark_version("TShark (Wireshark) 4.4.0.\n\nCopyright 1998-2024"),
        Some("4.4.0")
    );
    // Abrupt end of the string.
    assert!(parse_tshark_version("TShark (Wireshark) 4.4.0.").is_none());
    assert!(parse_tshark_version("What the TShark?!").is_none());
}

#[test]
fn hash12_of_digest_takes_twelve_digits() {
    let d: Vec<u8> = vec![0x01, 0x23, 0x45, 0x67, 0x89, 0xab, 0xcd, 0xef];
    assert_eq!(hash12_of_digest(&d), "0123456789ab");
}

#[test]
fn hash12_is_not_its_input() {
    assert_ne!(hash12("abcdefghijkl"), "abcdefghijkl");
    assert_eq!(hash12("abc").len(), 12);
}

#[test]
fn tshark_version_assessment() {
    assert_eq!(
        assess_tshark_version("TShark (Wireshark) 4.0.8 (v4.0.8-0-g81696bb74857)."),
        Ok(true)
    );
    assert_eq!(assess_tshark_version("TShark (Wireshark) 4.0.6 (x)"), Ok(true));
    assert_eq!(assess_tshark_version("TShark (Wireshark) 4.0.5 (x)"), Ok(false));
    assert_eq!(
        assess_tshark_version("TShark (Wireshark) 3.6.2 (Git v3.6.2 packaged as 3.6.2-2)"),
        Ok(false)
    );
    assert_eq!(
        assess_tshark_version("What the TShark?!"),
        Err(VersionError::ParseTsharkVersion)
    );
    assert_eq!(
        assess_tshark_version("TShark (Wireshark) 4.x (x)"),
        Err(VersionError::InvalidSemver)
    );
    assert_eq!(assess_tshark_version("TShark (Wireshark) 4.1.0-rc1 (x)"), Ok(false));
}

#[test]
fn tshark_minimum() {
    assert!(meets_tshark_minimum(4, 0, 6, false));
    assert!(meets_tshark_minimum(5, 0, 0, false));
    assert!(!meets_tshark_minimum(4, 0, 5, false));
    assert!(!meets_tshark_minimum(4, 1, 0, true));
}

#[test]
fn grease_values() {
    assert!(is_grease(0x0a0a));
    assert!(is_grease(0xfafa));
    assert!(!is_grease(0x0a1a));
    assert!(!is_grease(0x1301));
}

#[test]
fn grease_removal_is_idempotent() {
    let v: Vec<u16> = vec![0x0a0a, 0x1301, 0x2a2a, 0x1302, 0xfafa];
    let once = without_grease(&v);
    assert_eq!(once, vec![0x1301, 0x1302]);
    assert_eq!(without_grease(&once), once);
}

#[test]
fn sorting_and_tokens() {
    let v: Vec<u16> = vec![0x1303, 0x000a, 0x1301];
    assert_eq!(sort_ascending(&v), vec![0x000a, 0x1301, 0x1303]);
    assert_eq!(hex_token(0x1301), "1301");
    assert_eq!(hex_token(0x000a), "000a");
    assert_eq!(join_hex_list(&vec![0x1301, 0x1302, 0x1303]), "1301,1302,1303");
    assert_eq!(join_hex_list(&vec![]), "");
    assert_eq!(count_digits(3), "03");
    assert_eq!(count_digits(150), "99");
    assert_eq!(max_value(&vec![0x0303, 0x0304, 0x0301]), 0x0304);
    assert_eq!(decimal_text(0), "0");
    assert_eq!(decimal_text(25000), "25000");
}

fn hello(ciphers: Vec<u16>, extensions: Vec<u16>) -> ClientHello {
    ClientHello {
        transport: Transport::Tcp,
        record_version: 0x0303,
        supported_versions: vec![0x0304, 0x0303],
        has_sni: true,
        alpn: "h2".to_string(),
        ciphers,
        extensions,
        signature_algorithms: vec![0x0403, 0x0804],
    }
}

#[test]
fn ja4_tls13_client_hello() {
    let h = hello(vec![0x1301, 0x1302, 0x1303], vec![0x0000, 0x0010, 0x002b, 0x000a]);
    let expected = format!(
        "t13d0304h2_{}_{}",
        hash12("1301,1302,1303"),
        hash12("000a,002b_0403,0804")
    );
    assert_eq!(ja4(&h, false), expected);
    assert_eq!(offered_version(&h), 0x0304);
}

#[test]
fn ja4_sorted_ignores_permutation() {
    let a = hello(vec![0x1303, 0x1301, 0x1302], vec![0x000a, 0x0010, 0x0000, 0x002b]);
    let b = hello(vec![0x1301, 0x1302, 0x1303], vec![0x0000, 0x0010, 0x002b, 0x000a]);
    assert_eq!(ja4(&a, false), ja4(&b, false));
    assert_ne!(ja4(&a, true), ja4(&b, true));
}

#[test]
fn ja4_original_order_ignores_grease() {
    let a = hello(vec![0x1303, 0x1301], vec![0x000a, 0x002b]);
    let b = hello(vec![0x1303, 0x3a3a, 0x1301], vec![0x4a4a, 0x000a, 0x002b]);
    assert_eq!(ja4(&a, true), ja4(&b, true));
    let expected = format!("t13d0202h2_{}_{}", hash12("1303,1301"), hash12("000a,002b_0403,0804"));
    assert_eq!(ja4(&a, true), expected);
}

#[test]
fn ja4_without_alpn_or_sni() {
    let mut h = hello(vec![], vec![]);
    h.alpn = String::new();
    h.has_sni = false;
    h.supported_versions = vec![];
    h.signature_algorithms = vec![];
    assert_eq!(ja4(&h, false), "t12i000000_000000000000_000000000000");
}

#[test]
fn ja4s_tls12_server_hello() {
    let h = ServerHello {
        transport: Transport::Tcp,
        version: 0x0303,
        alpn: "http/1.1".to_string(),
        cipher: 0xc02f,
        extensions: vec![0x0000, 0x0017, 0x000b],
    };
    let expected = format!("t120300h1_{}", hash12("0000,0017,000b_c02f"));
    assert_eq!(ja4s(&h), expected);
}

fn request() -> HttpRequest {
    HttpRequest {
        method: "GET".to_string(),
        version_major: 1,
        version_minor: 1,
        headers: vec![
            "Host".to_string(),
            "User-Agent".to_string(),
            "Accept".to_string(),
            "Cookie".to_string(),
            "Accept-Language".to_string(),
        ],
        accept_language: "en-US".to_string(),
        cookies: vec![
            ("sid".to_string(), "42".to_string()),
            ("lang".to_string(), "en".to_string()),
        ],
    }
}

#[test]
fn ja4h_get_with_cookie() {
    let r = request();
    let expected = format!(
        "ge11cn04en00_{}_{}_{}",
        hash12("Host,User-Agent,Accept,Accept-Language"),
        hash12("lang,sid"),
        hash12("lang=en,sid=42")
    );
    assert_eq!(ja4h(&r, false), expected);
    let kept = format!(
        "ge11cn04en00_{}_{}_{}",
        hash12("Host,User-Agent,Accept,Accept-Language"),
        hash12("sid,lang"),
        hash12("sid=42,lang=en")
    );
    assert_eq!(ja4h(&r, true), kept);
}

#[test]
fn ja4h_counts_no_cookie_or_referer() {
    let mut r = request();
    r.headers = vec![
        "cookie".to_string(),
        "REFERER".to_string(),
        ":authority".to_string(),
        "Host".to_string(),
    ];
    r.cookies = vec![];
    r.accept_language = String::new();
    r.method = "POST".to_string();
    r.version_major = 2;
    r.version_minor = 0;
    let expected = format!("po20cr010000_{}_000000000000_000000000000", hash12("Host"));
    assert_eq!(ja4h(&r, false), expected);
}

#[test]
fn ja4x_extension_hash() {
    let c = Certificate {
        issuer_rdns: vec!["2.5.4.6".to_string(), "2.5.4.10".to_string()],
        subject_rdns: vec!["2.5.4.3".to_string()],
        extensions: vec![
            "2.5.29.15".to_string(),
            "2.5.29.37".to_string(),
            "2.5.29.17".to_string(),
        ],
    };
    assert_eq!(ja4x_extensions_raw(&c), "2.5.29.15,2.5.29.37,2.5.29.17");
    let expected = format!(
        "{}_{}_{}",
        hash12("2.5.4.6,2.5.4.10"),
        hash12("2.5.4.3"),
        hash12("2.5.29.15,2.5.29.37,2.5.29.17")
    );
    assert_eq!(ja4x(&c), expected);
}

#[test]
fn ja4l_handshake() {
    let h = Handshake {
        syn_us: 1000,
        syn_ack_us: 51000,
        ack_us: 76000,
        client_ttl: 64,
        server_ttl: 128,
    };
    assert_eq!(ja4l_s(&h), Some("25000_128".to_string()));
    assert_eq!(ja4l_c(&h), Some("12500_64".to_string()));
}

#[test]
fn ja4l_out_of_order_is_omitted() {
    let h = Handshake {
        syn_us: 5000,
        syn_ack_us: 1000,
        ack_us: 500,
        client_ttl: 64,
        server_ttl: 128,
    };
    assert_eq!(ja4l_s(&h), None);
    assert_eq!(ja4l_c(&h), None);
    assert_eq!(half_rtt(10, 10), Some(0));
    assert_eq!(half_rtt(10, 31), Some(10));
}

fn ssh_packets(client: usize, server: usize) -> Vec<SshPacket> {
    let mut v = Vec::new();
    for i in 0..client {
        v.push(SshPacket { from_client: true, length: if i % 4 == 0 { 100 } else { 36 }, reset: false });
    }
    for i in 0..server {
        v.push(SshPacket { from_client: false, length: if i % 5 == 0 { 20 } else { 52 }, reset: false });
    }
    v
}

#[test]
fn ja4ssh_one_window() {
    let p = ssh_packets(120, 80);
    assert_eq!(ja4ssh(&p), vec!["c36s52_120_80_0".to_string()]);
    assert_eq!(ssh_segment(&p), "c36s52_120_80_0");
}

#[test]
fn ja4ssh_window_count() {
    assert_eq!(ja4ssh(&vec![]).len(), 0);
    assert_eq!(ja4ssh(&ssh_packets(150, 50)).len(), 1);
    assert_eq!(ja4ssh(&ssh_packets(150, 51)).len(), 2);
    assert_eq!(ja4ssh(&ssh_packets(300, 101)).len(), 3);
}

#[test]
fn ssh_mode_ties_and_resets() {
    let p = vec![
        SshPacket { from_client: true, length: 48, reset: false },
        SshPacket { from_client: true, length: 40, reset: false },
        SshPacket { from_client: false, length: 7, reset: true },
    ];
    assert_eq!(modal_length(&p, true), 40);
    assert_eq!(modal_length(&p, false), 7);
    assert_eq!(ssh_segment(&p), "c40s7_2_1_1");
    assert_eq!(modal_length(&p[..2], false), 0);
}

#[test]
fn orientation_is_stable() {
    let a = Endpoint { addr: 1, port: 50000 };
    let b = Endpoint { addr: 2, port: 443 };
    let mut s = Streams::new();
    assert_eq!(s.update(a, b, Proto::Tcp, false), Sender::Client);
    assert_eq!(s.update(b, a, Proto::Tcp, true), Sender::Server);
    assert_eq!(s.update(a, b, Proto::Tcp, false), Sender::Client);
    assert_eq!(s.flows.len(), 1);
    assert_eq!(s.flows[0].client, a);
    // A capture that starts with the SYN-ACK still names the right client.
    let c = Endpoint { addr: 3, port: 50001 };
    assert_eq!(s.update(b, c, Proto::Tcp, true), Sender::Server);
    assert_eq!(s.flows[1].client, c);
    assert_eq!(s.update(c, b, Proto::Udp, false), Sender::Client);
    assert_eq!(s.flows.len(), 3);
}

#[test]
fn handshake_tracker_steps() {
    let mut t = HandshakeTracker::new();
    assert_eq!(t.handshake(), None);
    t.observe(true, true, false, 1000, 64);
    t.observe(true, true, false, 9000, 10);
    t.observe(false, true, true, 51000, 128);
    assert_eq!(t.handshake(), None);
    t.observe(true, false, true, 76000, 64);
    t.observe(true, false, true, 99000, 64);
    let h = t.handshake().unwrap();
    assert_eq!(h, Handshake { syn_us: 1000, syn_ack_us: 51000, ack_us: 76000, client_ttl: 64, server_ttl: 128 });
    assert_eq!(ja4l_s(&h), Some("25000_128".to_string()));
    assert_eq!(ja4l_c(&h), Some("12500_64".to_string()));
}

fn fields(pairs: &[(&str, &str)]) -> Vec<(String, String)> {
    pairs.iter().map(|(n, v)| (n.to_string(), v.to_string())).collect()
}

fn packet(number: u64, src: Endpoint, dst: Endpoint, ts_us: u64, ttl: u8, f: &[(&str, &str)]) -> PacketFields {
    PacketFields { number, src, dst, proto: Proto::Tcp, ts_us, ttl, fields: fields(f) }
}

const CLIENT: Endpoint = Endpoint { addr: 10, port: 50000 };
const SERVER: Endpoint = Endpoint { addr: 20, port: 443 };

fn client_hello_fields() -> Vec<(&'static str, &'static str)> {
    vec![
        ("tls.record.version", "0x0301"),
        ("tls.handshake.type", "1"),
        ("tls.handshake.ciphersuite", "0x1a1a"),
        ("tls.handshake.ciphersuite", "0x1302"),
        ("tls.handshake.ciphersuite", "0x1301"),
        ("tls.handshake.ciphersuite", "0x1303"),
        ("tls.handshake.extension.type", "0"),
        ("tls.handshake.extensions_server_name", "example.com"),
        ("tls.handshake.extension.type", "16"),
        ("tls.handshake.extensions_alpn_str", "h2"),
        ("tls.handshake.extension.type", "0x002b"),
        ("tls.handshake.extensions.supported_version", "0x0304"),
        ("tls.handshake.extensions.supported_version", "0x0303"),
        ("tls.handshake.extension.type", "0x000a"),
        ("tls.handshake.sig_hash_alg", "0x0403"),
        ("tls.handshake.sig_hash_alg", "0x0804"),
    ]
}

#[test]
fn number_parsing() {
    assert_eq!(u16_text("0x1301"), Some(0x1301));
    assert_eq!(u16_text("0xC02F"), Some(0xc02f));
    assert_eq!(u16_text("16"), Some(0x0010));
    assert_eq!(u16_text("65535"), Some(0xffff));
    assert_eq!(u16_text("65536"), None);
    assert_eq!(u16_text("c02f"), None);
    assert_eq!(u16_text("0x12345"), None);
    assert_eq!(u16_text("0x"), None);
    assert_eq!(u16_text("zz"), None);
    assert_eq!(dec32("36"), Some(36));
    assert_eq!(dec32("3a"), None);
    assert_eq!(dec32(""), None);
}

#[test]
fn client_hello_from_fields() {
    let p = packet(1, CLIENT, SERVER, 0, 64, &client_hello_fields());
    let h = client_hello_of(&p);
    assert_eq!(h.ciphers, vec![0x1a1a, 0x1302, 0x1301, 0x1303]);
    assert_eq!(h.extensions, vec![0x0000, 0x0010, 0x002b, 0x000a]);
    assert_eq!(h.record_version, 0x0301);
    assert!(h.has_sni);
    assert_eq!(h.alpn, "h2");
    let expected = format!(
        "t13d0304h2_{}_{}",
        hash12("1301,1302,1303"),
        hash12("000a,002b_0403,0804")
    );
    assert_eq!(ja4(&h, false), expected);
    assert_eq!(ja4_raw(&h, false), "t13d0304h2_1301,1302,1303_000a,002b_0403,0804");
    assert_eq!(ja4_cipher_raw(&h, true), "1302,1301,1303");
    assert_eq!(ja4_extension_raw(&h, true), "002b,000a_0403,0804");
    assert_eq!(ja4_prefix(&h, true), "t13d0304h2");
}

#[test]
fn ja4_grease_prefiltered_unchanged() {
    let a = hello(vec![0x0a0a, 0x1303, 0x1301], vec![0x2a2a, 0x000a, 0x002b]);
    let b = hello(without_grease(&a.ciphers), without_grease(&a.extensions));
    assert_eq!(ja4(&a, true), ja4(&b, true));
    assert_eq!(ja4_raw(&a, true), ja4_raw(&b, true));
    assert_eq!(ja4(&a, false), ja4(&b, false));
}

#[test]
fn server_hello_from_fields() {
    let p = packet(2, SERVER, CLIENT, 0, 128, &[
        ("tls.handshake.type", "2"),
        ("tls.handshake.version", "0x0303"),
        ("tls.handshake.ciphersuite", "0xc02f"),
        ("tls.handshake.extension.type", "0x0000"),
        ("tls.handshake.extension.type", "0x0017"),
        ("tls.handshake.extensions_alpn_str", "http/1.1"),
        ("tls.handshake.extension.type", "0x000b"),
    ]);
    let h = server_hello_of(&p);
    assert_eq!(h.version, 0x0303);
    assert_eq!(h.cipher, 0xc02f);
    assert_eq!(ja4s(&h), format!("t120300h1_{}", hash12("0000,0017,000b_c02f")));
    assert_eq!(ja4s_raw(&h), "t120300h1_0000,0017,000b_c02f");
}

#[test]
fn http_request_from_fields() {
    let p = packet(3, CLIENT, SERVER, 0, 64, &[
        ("http.request.method", "GET"),
        ("http.request.version", "HTTP/1.1"),
        ("http.request.line", "Host: example.com\r\n"),
        ("http.request.line", "User-Agent: x\r\n"),
        ("http.request.line", "Accept: */*\r\n"),
        ("http.request.line", "Cookie: sid=42; lang=en\r\n"),
        ("http.cookie_pair", "sid=42"),
        ("http.cookie_pair", "lang=en"),
        ("http.request.line", "Accept-Language: en-US\r\n"),
        ("http.accept_language", "en-US"),
    ]);
    let r = http_request_of(&p);
    assert_eq!(r.version_major, 1);
    assert_eq!(r.version_minor, 1);
    assert_eq!(r.headers, vec!["Host", "User-Agent", "Accept", "Cookie", "Accept-Language"]);
    assert_eq!(r.cookies, vec![("sid".to_string(), "42".to_string()), ("lang".to_string(), "en".to_string())]);
    assert_eq!(ja4h(&r, false), ja4h(&request(), false));
    assert_eq!(
        ja4h_raw(&r, false),
        "ge11cn04en00_Host,User-Agent,Accept,Accept-Language_lang,sid_lang=en,sid=42"
    );
}

#[test]
fn certificates_one_per_certificate() {
    let p = packet(4, SERVER, CLIENT, 0, 128, &[
        ("x509if.id", "2.5.4.99"),
        ("tls.handshake.certificate", ""),
        ("x509if.id", "2.5.4.6"),
        ("x509if.id", "2.5.4.10"),
        ("x509af.subject", "1"),
        ("x509if.id", "2.5.4.3"),
        ("x509af.extension.id", "2.5.29.15"),
        ("x509af.extension.id", "2.5.29.37"),
        ("x509af.extension.id", "2.5.29.17"),
        ("tls.handshake.certificate", ""),
        ("x509if.id", "2.5.4.6"),
        ("x509af.subject", "1"),
        ("x509if.id", "2.5.4.10"),
    ]);
    let c = certificates_of(&p);
    assert_eq!(c.len(), 2);
    assert_eq!(c[0].issuer_rdns, vec!["2.5.4.6", "2.5.4.10"]);
    assert_eq!(c[0].subject_rdns, vec!["2.5.4.3"]);
    assert_eq!(ja4x_raw(&c[0]), "2.5.4.6,2.5.4.10_2.5.4.3_2.5.29.15,2.5.29.37,2.5.29.17");
    assert_eq!(c[1].extensions.len(), 0);
    assert_eq!(ja4x_raw(&c[1]), "2.5.4.6_2.5.4.10_");
}

#[test]
fn observe_dispatches_packets() {
    let mut streams = Streams::new();
    let mut outs: Vec<FlowFingerprints> = Vec::new();
    observe(&mut streams, &mut outs, &packet(1, CLIENT, SERVER, 1000, 64, &[("tcp.flags.syn", "1"), ("tcp.flags.ack", "0")]), false);
    observe(&mut streams, &mut outs, &packet(2, SERVER, CLIENT, 51000, 128, &[("tcp.flags.syn", "1"), ("tcp.flags.ack", "1")]), false);
    observe(&mut streams, &mut outs, &packet(3, CLIENT, SERVER, 76000, 64, &[("tcp.flags.syn", "0"), ("tcp.flags.ack", "1")]), false);
    observe(&mut streams, &mut outs, &packet(4, CLIENT, SERVER, 77000, 64, &client_hello_fields()), false);
    let mut second = client_hello_fields();
    second[3] = ("tls.handshake.ciphersuite", "0x00ff");
    observe(&mut streams, &mut outs, &packet(5, CLIENT, SERVER, 78000, 64, &second), false);
    assert_eq!(streams.flows.len(), 1);
    assert_eq!(outs.len(), 1);
    let o = &outs[0];
    let h = client_hello_of(&packet(4, CLIENT, SERVER, 0, 64, &client_hello_fields()));
    assert_eq!(o.ja4, Some(ja4(&h, false)));
    assert_eq!(o.ja4_raw, Some(ja4_raw(&h, false)));
    assert_eq!(o.ja4_pkt, Some(4));
    let hs = o.timing.handshake().unwrap();
    assert_eq!(ja4l_s(&hs), Some("25000_128".to_string()));
    assert_eq!(ja4l_c(&hs), Some("12500_64".to_string()));

    let other = Endpoint { addr: 30, port: 22 };
    observe(&mut streams, &mut outs, &packet(6, CLIENT, other, 80000, 64, &[("ssh.packet_length", "36")]), false);
    observe(&mut streams, &mut outs, &packet(7, other, CLIENT, 80001, 64, &[("ssh.packet_length", "52")]), false);
    observe(&mut streams, &mut outs, &packet(8, other, CLIENT, 80002, 64, &[("tcp.flags.reset", "1")]), false);
    assert_eq!(outs.len(), 2);
    assert_eq!(ja4ssh(&outs[1].ssh), vec!["c36s52_1_1_1".to_string()]);
    assert!(outs[0].ssh.is_empty());
}
