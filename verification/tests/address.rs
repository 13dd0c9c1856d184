use ipdetect::address::ip_address;

fn is_address(text: &str) -> bool {
    let chars: Vec<char> = text.chars().collect();
    ip_address(&chars)
}

#[test]
fn ipv4_addresses() {
    for text in ["0.0.0.0", "1.2.3.4", "255.255.255.255", "10.0.0.1"] {
        assert!(is_address(text), "{text}");
    }
    for text in [
        "", ".", "1.2.3", "1.2.3.4.5", "256.1.1.1", "01.2.3.4", "1.2.3.00", "1..2.3", " 1.2.3.4",
        "1.2.3.4 ", "1.2.3.-4", "1.2.3.1000", "a.b.c.d", "1.2.3.4:80", "١.2.3.4",
    ] {
        assert!(!is_address(text), "{text}");
    }
}

#[test]
fn ipv6_addresses() {
    for text in [
        "::",
        "::1",
        "1::",
        "2001:db8::1",
        "1:2:3:4:5:6:7:8",
        "0001:0002:0003:0004:0005:0006:0007:0008",
        "1:2:3:4:5:6:7::",
        "::2:3:4:5:6:7:8",
        "1::3:4:5:6:7:8",
        "::ffff:1.2.3.4",
        "1:2:3:4:5:6:1.2.3.4",
        "::1:2:3:4:5:1.2.3.4",
        "fe80::AbCd",
        "::1.2.3.4",
    ] {
        assert!(is_address(text), "{text}");
    }
    for text in [
        ":",
        ":::",
        "1:2:3:4:5:6:7",
        "1:2:3:4:5:6:7:8:9",
        "1:2:3:4:5:6:7:8::",
        "::1:2:3:4:5:6:7:8",
        "1::2::3",
        "1:2:3:4:5:6:7:1.2.3.4",
        "::1:2:3:4:5:6:1.2.3.4",
        "1.2.3.4::",
        "::1.2.3.4:5",
        "::1.2.3",
        "12345::",
        "g::",
        ":1::",
        "1:",
        "1::2:",
        "fe80::1%eth0",
        "[::1]",
    ] {
        assert!(!is_address(text), "{text}");
    }
}
