use ss_rs::routes::{dns_query, parse_dns, parse_route, script_output, RouteGuard, ROUTE_QUERY};
use ss_rs::text::{
    blank, chars_of, find, find_last, is_whitespace, push_dec, push_dec_padded, push_hex2,
    read_number, split_lines, split_pieces, split_words, string_of, trimmed, NumError,
};

fn samples() -> Vec<&'static str> {
    vec![
        "",
        " ",
        "\n",
        "\r\n",
        "a",
        " a\u{3000}b ",
        "one\r\ntwo\n\nthree\r",
        "\r\r\n",
        "x=y=z",
        "::1",
        "a,b,,c,",
        "\u{85}tab\u{2028}\tend\u{a0}",
        "例子 文本",
        "://://",
        "0x0x1",
    ]
}

fn strings(list: Vec<Vec<char>>) -> Vec<String> {
    list.iter().map(|chars| string_of(chars)).collect()
}

#[test]
fn white_space_is_what_it_should_be() {
    for code in 0..=0x10ffff {
        if let Some(c) = char::from_u32(code) {
            assert_eq!(is_whitespace(c), c.is_whitespace());
        }
    }
}

#[test]
fn texts_are_split_as_strings_are() {
    for text in samples() {
        let chars = chars_of(text);
        assert_eq!(string_of(&chars), text);
        assert_eq!(string_of(trimmed(&chars)), text.trim());
        assert_eq!(blank(&chars), text.trim().is_empty());
        assert_eq!(
            strings(split_words(&chars)),
            text.split_whitespace().collect::<Vec<_>>()
        );
        assert_eq!(
            strings(split_lines(&chars)),
            text.lines().collect::<Vec<_>>()
        );
        assert_eq!(
            strings(split_pieces(&chars, ',')),
            text.split(',').collect::<Vec<_>>()
        );
        for pattern in ["", "a", "://", "\r\n", "zz"] {
            let wanted = chars_of(pattern);
            let found = find(&chars, &wanted).map(|i| {
                (
                    string_of(&chars[..i]),
                    string_of(&chars[i + wanted.len()..]),
                )
            });
            let expected = text
                .split_once(pattern)
                .map(|(a, b)| (a.to_owned(), b.to_owned()));
            assert_eq!(found, expected);
        }
        let last = find_last(&chars, ':').map(|i| string_of(&chars[..i]));
        assert_eq!(last, text.rsplit_once(':').map(|(a, _)| a.to_owned()));
    }
}

#[test]
fn numbers_are_read_as_std_reads_them() {
    for text in [
        "", "+", "-", "0", "+0", "-0", "00012", "255", "256", "+65535", "65536", "1 ", "ff", "FF",
        "1_0", "9999999999999999999999x", "x9999999999999999999999", "\u{663}",
    ] {
        let chars = chars_of(text);
        let decimal = read_number(&chars, 10, u16::MAX as u64).map(|n| n as u16);
        assert_eq!(
            decimal.map_err(|e| e.message()),
            text.parse::<u16>().map_err(|e| e.to_string())
        );
        let hexadecimal = read_number(&chars, 16, u32::MAX as u64).map(|n| n as u32);
        assert_eq!(
            hexadecimal.map_err(|e| e.message()),
            u32::from_str_radix(text, 16).map_err(|e| e.to_string())
        );
    }
    assert_eq!(
        read_number(&chars_of("18446744073709551615"), 10, u64::MAX),
        Ok(u64::MAX)
    );
    assert_eq!(
        read_number(&chars_of("18446744073709551616"), 10, u64::MAX),
        Err(NumError::PosOverflow)
    );
}

#[test]
fn numbers_are_written_as_std_writes_them() {
    for n in [0, 7, 9, 10, 99, 100, 12345, u64::MAX] {
        let mut out = String::new();
        push_dec(&mut out, n);
        assert_eq!(out, n.to_string());
        assert_eq!(read_number(&chars_of(&out), 10, u64::MAX), Ok(n));
        let mut out = String::new();
        push_dec_padded(&mut out, n, 4);
        assert_eq!(out, format!("{:04}", n));
    }
    for b in [0u8, 9, 10, 15, 16, 171, 255] {
        let mut out = String::new();
        push_hex2(&mut out, b);
        assert_eq!(out, format!("{:02x}", b));
    }
}

#[test]
fn routes_are_read() {
    assert!(ROUTE_QUERY.ends_with("\"$($r.InterfaceIndex)|$($r.NextHop)\""));
    assert_eq!(
        parse_route("\r\n12|192.168.1.1\r\n"),
        Ok((12, "192.168.1.1".to_owned()))
    );
    assert_eq!(parse_route("4294967295|a|b"), Ok((u32::MAX, "a|b".to_owned())));
    assert_eq!(
        parse_route("12 192.168.1.1"),
        Err("failed to read the physical default route".to_owned())
    );
    assert_eq!(
        parse_route("|192.168.1.1"),
        Err("cannot parse integer from empty string".to_owned())
    );
    assert_eq!(
        parse_route("12 |x"),
        Err("invalid digit found in string".to_owned())
    );
    assert_eq!(
        parse_route("4294967296|x"),
        Err("number too large to fit in target type".to_owned())
    );
}

#[test]
fn name_servers_are_read() {
    assert_eq!(
        dns_query(12),
        "(Get-DnsClientServerAddress -InterfaceIndex 12 -AddressFamily IPv4).ServerAddresses -join ','"
    );
    assert_eq!(parse_dns("1.1.1.1,8.8.8.8\r\n"), vec!["1.1.1.1", "8.8.8.8"]);
    assert_eq!(parse_dns(",1.1.1.1,,"), vec!["1.1.1.1"]);
    assert_eq!(parse_dns(" \r\n"), Vec::<String>::new());
}

#[test]
fn scripts_fail_with_their_reason() {
    assert_eq!(script_output(true, b" out\n", b"x"), Ok(" out\n".to_owned()));
    assert_eq!(
        script_output(true, b"\xff", b""),
        Ok("\u{fffd}".to_owned())
    );
    assert_eq!(
        script_output(false, b"out", b"\r\n denied \r\n"),
        Err("PowerShell network configuration failed: denied".to_owned())
    );
}

#[test]
fn scripts_change_the_routes_and_bring_them_back() {
    let mut guard = RouteGuard {
        tun_index: 33,
        physical_index: 12,
        server_ip: [203, 0, 113, 9],
        old_dns: vec!["1.1.1.1".into(), "8.8.8.8".into()],
    };
    assert_eq!(
        guard.install_script("192.168.1.1", [9, 9, 9, 9]),
        "New-NetRoute -PolicyStore ActiveStore -DestinationPrefix '203.0.113.9/32' -InterfaceIndex 12 -NextHop '192.168.1.1' -RouteMetric 1 -ErrorAction Stop | Out-Null; New-NetRoute -PolicyStore ActiveStore -DestinationPrefix '0.0.0.0/1' -InterfaceIndex 33 -NextHop '0.0.0.0' -RouteMetric 1 -ErrorAction Stop | Out-Null; New-NetRoute -PolicyStore ActiveStore -DestinationPrefix '128.0.0.0/1' -InterfaceIndex 33 -NextHop '0.0.0.0' -RouteMetric 1 -ErrorAction Stop | Out-Null; New-NetIPAddress -PolicyStore ActiveStore -InterfaceIndex 33 -IPAddress 'fd00::2' -PrefixLength 126 -ErrorAction SilentlyContinue | Out-Null; New-NetRoute -PolicyStore ActiveStore -DestinationPrefix '::/1' -InterfaceIndex 33 -NextHop '::' -RouteMetric 1 -ErrorAction Stop | Out-Null; New-NetRoute -PolicyStore ActiveStore -DestinationPrefix '8000::/1' -InterfaceIndex 33 -NextHop '::' -RouteMetric 1 -ErrorAction Stop | Out-Null; Set-DnsClientServerAddress -InterfaceIndex 12 -ServerAddresses '9.9.9.9' -ErrorAction Stop"
    );
    assert_eq!(
        guard.removal_script(),
        "Remove-NetRoute -PolicyStore ActiveStore -DestinationPrefix '0.0.0.0/1','128.0.0.0/1','::/1','8000::/1' -InterfaceIndex 33 -Confirm:$false -ErrorAction SilentlyContinue; Remove-NetRoute -PolicyStore ActiveStore -DestinationPrefix '203.0.113.9/32' -InterfaceIndex 12 -Confirm:$false -ErrorAction SilentlyContinue; Set-DnsClientServerAddress -InterfaceIndex 12 -ServerAddresses @('1.1.1.1','8.8.8.8') -ErrorAction SilentlyContinue"
    );
    guard.old_dns = vec![];
    guard.tun_index = -2147483648;
    assert!(guard.removal_script().contains(" -InterfaceIndex -2147483648 -Confirm"));
    assert!(guard.removal_script().ends_with(
        "Set-DnsClientServerAddress -InterfaceIndex 12 -ResetServerAddresses -ErrorAction SilentlyContinue"
    ));
}
