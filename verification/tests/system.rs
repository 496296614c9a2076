use lusid::system::{
    parse_byte, validate_ubuntu_version, Arch, Bitness, GetLinuxError, GetUserError, Linux, Os,
    User,
};
use lusid::text::{
    chars_of, contains_text, insert_sorted, is_blank, join_texts, text_of, trim_text, write_number,
};
use lusid::vm::{
    split_once_whitespace, Sha256, Sha512, VmImageHash, VmImageHashRef, VmImageIndex, VmImageRef,
};

#[test]
fn an_ubuntu_version_is_year_and_month() {
    assert!(validate_ubuntu_version("22.04").is_ok());
    assert!(validate_ubuntu_version("24.12").is_ok());
    assert!(validate_ubuntu_version("00.01").is_ok());
    for version in ["22.15", "22.00", "22.13", "2.04", "222.04", "22.4", "ab.04", "22.0a", "22.1٢"] {
        assert_eq!(
            validate_ubuntu_version(version).unwrap_err(),
            "invalid Ubuntu version (expected YY.MM, with 01-12 for MM)"
        );
    }
    for version in ["", "2204", "22.04.1", "22..04", "."] {
        let expected = if version == "." {
            "invalid Ubuntu version (expected YY.MM, with 01-12 for MM)"
        } else {
            "Ubuntu: expected YY.MM"
        };
        assert_eq!(validate_ubuntu_version(version).unwrap_err(), expected);
    }
}

#[test]
fn a_byte_is_read_from_decimal_digits() {
    assert_eq!(parse_byte("12"), Some(12));
    assert_eq!(parse_byte("0"), Some(0));
    assert_eq!(parse_byte("255"), Some(255));
    assert_eq!(parse_byte("+7"), Some(7));
    assert_eq!(parse_byte("007"), Some(7));
    for text in ["", "+", "256", "1000", "-1", "1 ", " 1", "1a", "++1"] {
        assert_eq!(parse_byte(text), None);
        assert!(text.parse::<u8>().is_err());
    }
}

#[test]
fn the_distribution_is_read_from_the_release() {
    assert_eq!(
        Linux::from_os_release("ubuntu", Some("22.04")).unwrap(),
        Linux::Ubuntu { version: "22.04".to_string() }
    );
    assert_eq!(Linux::from_os_release("debian", Some("12")).unwrap(), Linux::Debian { version: 12 });
    assert_eq!(Linux::from_os_release("arch", None).unwrap(), Linux::Arch);
    assert_eq!(Linux::from_os_release("arch", Some("rolling")).unwrap(), Linux::Arch);
    assert!(matches!(
        Linux::from_os_release("ubuntu", None),
        Err(GetLinuxError::MissingVersionField)
    ));
    assert!(matches!(
        Linux::from_os_release("debian", None),
        Err(GetLinuxError::MissingVersionField)
    ));
    match Linux::from_os_release("ubuntu", Some("22.15")) {
        Err(GetLinuxError::InvalidUbuntuVersion { version_id, error }) => {
            assert_eq!(version_id, "22.15");
            assert!(error.contains("invalid Ubuntu version"));
        }
        other => panic!("unexpected result {:?}", other),
    }
    assert!(matches!(
        Linux::from_os_release("debian", Some("bookworm")),
        Err(GetLinuxError::InvalidDebianVersion { version_id }) if version_id == "bookworm"
    ));
    assert!(matches!(
        Linux::from_os_release("fedora", Some("40")),
        Err(GetLinuxError::UnknownLinux { id }) if id == "fedora"
    ));
}

#[test]
fn systems_are_labelled() {
    assert_eq!(Os::Linux(Linux::Ubuntu { version: "22.04".to_string() }).label(), "linux-ubuntu-22.04");
    assert_eq!(Os::Linux(Linux::Debian { version: 12 }).label(), "linux-debian-12");
    assert_eq!(Os::Linux(Linux::Debian { version: 0 }).label(), "linux-debian-0");
    assert_eq!(Os::Linux(Linux::Arch).label(), "linux-arch");
    assert_eq!(Arch::X86_64.label(), "x86-64");
    assert_eq!(Arch::Aarch64.label(), "aarch64");
    assert_eq!(Arch::from_name("x86_64"), Some(Arch::X86_64));
    assert_eq!(Arch::from_name("aarch64"), Some(Arch::Aarch64));
    assert_eq!(Arch::from_name("riscv64"), None);
    assert_eq!(Bitness::of(Arch::Aarch64), Bitness::X64);
    assert_eq!(Bitness::X64.label(), "64-bit");
}

#[test]
fn a_user_needs_a_name_and_a_home() {
    assert_eq!(User::from_environment(None, Some("/root".to_string())), Err(GetUserError::MissingUser));
    assert_eq!(User::from_environment(None, None), Err(GetUserError::MissingUser));
    assert_eq!(User::from_environment(Some("me".to_string()), None), Err(GetUserError::MissingHome));
    assert_eq!(
        User::from_environment(Some("me".to_string()), Some("/home/me".to_string())),
        Ok(User { name: "me".to_string(), home: "/home/me".to_string() })
    );
}

#[test]
fn images_are_kept_under_their_system() {
    let index = VmImageIndex {
        arch: Arch::X86_64,
        os: Os::Linux(Linux::Debian { version: 12 }),
        image: VmImageRef::Qcow2 { url: "https://x/debian.qcow2".to_string() },
        hash: VmImageHashRef::Sha512Sums { url: "https://x/SHA512SUMS".to_string() },
        kernel_root: "/dev/vda1".to_string(),
        user: "debian".to_string(),
    };
    assert_eq!(index.to_image_file_name(), "x86-64_linux-debian-12.qcow2");
    assert_eq!(index.to_hash_file_name(), "x86-64_linux-debian-12.sha512sums");
    assert_eq!(index.image.to_url(), "https://x/debian.qcow2");
    assert_eq!(index.image.to_extension(), "qcow2");
    assert_eq!(index.hash.to_url(), "https://x/SHA512SUMS");
    let other = VmImageHashRef::Sha256Sums { url: "u".to_string() };
    assert_eq!(other.to_url(), "u");
    assert_eq!(other.to_extension(), "sha256sums");
    assert!(matches!(VmImageHash::new(&other, "/c/sums"), VmImageHash::Sha256Sums { path: "/c/sums" }));
    assert!(matches!(VmImageHash::new(&index.hash, "/c/s"), VmImageHash::Sha512Sums { path: "/c/s" }));
    assert_eq!(VmImageHash::new(&other, "p").hex_length(), 64);
    assert_eq!(VmImageHash::new(&index.hash, "p").hex_length(), 128);
    assert_eq!(Sha256::hex_length(), 64);
    assert_eq!(Sha512::hex_length(), 128);
}

#[test]
fn a_line_is_cut_at_its_first_white_space() {
    assert_eq!(
        split_once_whitespace("abc123  *debian.qcow2"),
        Some(("abc123".to_string(), "*debian.qcow2".to_string()))
    );
    assert_eq!(split_once_whitespace("a \t b c"), Some(("a".to_string(), "b c".to_string())));
    assert_eq!(split_once_whitespace(" a"), Some((String::new(), "a".to_string())));
    assert_eq!(split_once_whitespace("a "), Some(("a".to_string(), String::new())));
    assert_eq!(split_once_whitespace("abc"), None);
    assert_eq!(split_once_whitespace(""), None);
    assert_eq!(split_once_whitespace("a\u{a0}b"), None);
}

#[test]
fn text_helpers_agree_with_the_standard_library() {
    for text in ["", " a b ", "\t\n x\u{a0}", "é ü", "\u{2003}wide\u{2003}"] {
        assert_eq!(trim_text(text), text.trim());
        assert_eq!(is_blank(text), text.trim().is_empty());
        let chars = chars_of(text);
        assert_eq!(chars, text.chars().collect::<Vec<char>>());
        assert_eq!(text_of(&chars, 0, chars.len()), text);
    }
    let hay = chars_of("no packages found matching foo");
    assert!(contains_text(&hay, &chars_of("found")));
    assert!(contains_text(&hay, &chars_of("")));
    assert!(contains_text(&hay, &chars_of("foo")));
    assert!(!contains_text(&hay, &chars_of("fooo")));
    assert!(!contains_text(&chars_of(""), &chars_of("a")));
    assert_eq!(join_texts(&vec!["a".to_string(), "b".to_string(), "c".to_string()], ", "), "a, b, c");
    assert_eq!(join_texts(&vec![], ", "), "");
    assert_eq!(join_texts(&vec!["a".to_string()], ", "), "a");
    for number in [0u64, 7, 8, 9, 10, 64, 420, 4095, u64::MAX] {
        assert_eq!(write_number(number, 10), format!("{}", number));
        assert_eq!(write_number(number, 8), format!("{:o}", number));
        assert_eq!(write_number(number, 2), format!("{:b}", number));
    }
    let mut sorted: Vec<String> = Vec::new();
    for word in ["m", "b", "z", "b", "a", "m", "ab"] {
        insert_sorted(&mut sorted, word.to_string());
    }
    assert_eq!(sorted, vec!["a", "ab", "b", "m", "z"]);
}

/// The system that a JSON record names: the distribution under `linux`,
/// its version under the name of the distribution.
fn os_from_json(json: &str) -> Result<Os, GetLinuxError> {
    let record: serde_json::Value = serde_json::from_str(json).unwrap();
    assert_eq!(record["type"].as_str().map(str::to_lowercase), Some("linux".to_string()));
    let id = record["linux"].as_str().unwrap().to_lowercase();
    let version = match &record[id.as_str()] {
        serde_json::Value::String(text) => Some(text.clone()),
        serde_json::Value::Number(number) => Some(number.to_string()),
        _ => None,
    };
    Linux::from_os_release(&id, version.as_deref()).map(Os::Linux)
}

#[test]
fn ubuntu_valid() {
    let j = r#"{
            "type": "Linux",
            "linux": "Ubuntu",
            "ubuntu": "22.04"
        }"#;
    let os = os_from_json(j).unwrap();
    assert_eq!(os.label(), "linux-ubuntu-22.04");
}

#[test]
fn ubuntu_invalid_month() {
    let j = r#"{
            "type": "Linux",
            "linux": "Ubuntu",
            "ubuntu": "22.15"
        }"#;
    let err = os_from_json(j).unwrap_err();
    match err {
        GetLinuxError::InvalidUbuntuVersion { error, .. } => {
            assert!(error.contains("invalid Ubuntu version"))
        }
        other => panic!("unexpected error {:?}", other),
    }
}

#[test]
fn debian_u8() {
    let j = r#"{
            "type": "Linux",
            "linux": "Debian",
            "debian": 12
        }"#;
    let os = os_from_json(j).unwrap();
    assert_eq!(os.label(), "linux-debian-12");
}

#[test]
fn arch_unit_variant() {
    let j = r#"{
            "type": "Linux",
            "linux": "Arch"
        }"#;
    let os = os_from_json(j).unwrap();
    assert_eq!(os.label(), "linux-arch");
}

#[test]
fn white_space_is_what_the_standard_library_takes_for_it() {
    let mut text = String::new();
    for code in 0..=0x10FFFFu32 {
        if let Some(c) = char::from_u32(code) {
            text.clear();
            text.push(c);
            assert_eq!(is_blank(&text), c.is_whitespace(), "U+{:04X}", code);
        }
    }
}

#[test]
fn texts_are_ordered_as_the_standard_library_orders_them() {
    let words = [
        "", "a", "ab", "b", "B", "é", "e", "z", "ä", "\u{10000}", "\u{ffff}", "a\u{0}", "aa", "~", "€",
    ];
    let mut sorted: Vec<String> = Vec::new();
    for word in words {
        insert_sorted(&mut sorted, word.to_string());
    }
    let mut expected: Vec<String> = words.iter().map(|word| word.to_string()).collect();
    expected.sort();
    expected.dedup();
    assert_eq!(sorted, expected);
}
