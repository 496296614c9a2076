use lusid::system::{Arch, Linux, Os};
use lusid::vm::sums::{
    confirm_sum, equals_ignoring_case, image_file_name, lookup_sum, read_sum_line, SumLine,
    VmImageHashError,
};
use lusid::vm::{VmImageHash, VmImageHashRef, VmImageIndex, VmImageRef};

fn digits(seed: &str, length: usize) -> String {
    seed.chars().cycle().take(length).collect()
}

fn chars(text: &str) -> Vec<char> {
    text.chars().collect()
}

#[test]
fn a_line_holds_a_checksum_and_a_name() {
    let hash = digits("0123456789abcdef", 64);
    assert_eq!(
        read_sum_line(&chars(&format!("{}  debian.qcow2", hash)), 64),
        SumLine::Entry { hash: hash.clone(), name: "debian.qcow2".to_string() }
    );
    assert_eq!(
        read_sum_line(&chars(&format!("  {} \t **images/debian.qcow2 \r", hash.to_uppercase())), 64),
        SumLine::Entry { hash: hash.clone(), name: "images/debian.qcow2".to_string() }
    );
    assert_eq!(
        read_sum_line(&chars(&format!("{} a b", hash)), 64),
        SumLine::Entry { hash: hash.clone(), name: "a b".to_string() }
    );
    assert_eq!(read_sum_line(&chars(""), 64), SumLine::Skipped);
    assert_eq!(read_sum_line(&chars("   \t"), 64), SumLine::Skipped);
    assert_eq!(read_sum_line(&chars("# checksums of today"), 64), SumLine::Skipped);
    assert_eq!(read_sum_line(&chars("  #"), 64), SumLine::Skipped);
    assert_eq!(read_sum_line(&chars(&hash), 64), SumLine::Malformed);
    assert_eq!(read_sum_line(&chars(&format!("{}  x", hash)), 128), SumLine::Malformed);
    assert_eq!(read_sum_line(&chars(&format!("{}  x", &hash[1..])), 64), SumLine::Malformed);
    assert_eq!(
        read_sum_line(&chars(&format!("{}g  x", &hash[1..])), 64),
        SumLine::Malformed
    );
    assert_eq!(
        read_sum_line(&chars(&format!("{}é  x", &hash[1..])), 64),
        SumLine::Malformed
    );
}

#[test]
fn the_checksum_of_an_image_is_looked_up_by_name() {
    let one = digits("0a1b2c3d", 64);
    let two = digits("F00D", 64);
    let sums = format!(
        "# made today\n\n{}  debian-11.qcow2\r\n{} *images/debian-12.qcow2\n{}  debian-12.qcow2\n",
        one,
        two,
        one
    );
    assert_eq!(lookup_sum(&sums, "debian-11.qcow2", 64), Ok(one.clone()));
    assert_eq!(lookup_sum(&sums, "debian-12.qcow2", 64), Ok(two.to_lowercase()));
    assert_eq!(
        lookup_sum(&sums, "debian-13.qcow2", 64),
        Err(VmImageHashError::HashNotFound { name: "debian-13.qcow2".to_string() })
    );
    assert_eq!(
        lookup_sum(&sums, "images/debian-12.qcow2", 64),
        Err(VmImageHashError::HashNotFound { name: "images/debian-12.qcow2".to_string() })
    );
    assert_eq!(
        lookup_sum("", "x", 64),
        Err(VmImageHashError::HashNotFound { name: "x".to_string() })
    );
    assert_eq!(lookup_sum(&format!("{}  x", one), "x", 64), Ok(one.clone()));
}

#[test]
fn a_malformed_line_is_reported_with_its_number() {
    let one = digits("0a1b2c3d", 64);
    let sums = format!("{}  a.qcow2\n\n  not a checksum  \r\n{}  b.qcow2\n", one, one);
    assert_eq!(lookup_sum(&sums, "a.qcow2", 64), Ok(one.clone()));
    assert_eq!(
        lookup_sum(&sums, "b.qcow2", 64),
        Err(VmImageHashError::MalformedLine {
            line_index: 3,
            line: "  not a checksum  ".to_string()
        })
    );
    assert_eq!(
        lookup_sum(&sums, "a.qcow2", 128),
        Err(VmImageHashError::MalformedLine {
            line_index: 1,
            line: format!("{}  a.qcow2", one)
        })
    );
    assert_eq!(
        lookup_sum("lonely\r", "x", 64),
        Err(VmImageHashError::MalformedLine { line_index: 1, line: "lonely\r".to_string() })
    );
}

#[test]
fn the_name_of_an_image_is_the_last_piece_of_its_address() {
    assert_eq!(image_file_name("https://cloud.debian.org/images/debian-12.qcow2"), "debian-12.qcow2");
    assert_eq!(image_file_name("debian-12.qcow2"), "debian-12.qcow2");
    assert_eq!(image_file_name("https://example.org/"), "");
    assert_eq!(image_file_name(""), "");
    assert_eq!(image_file_name("/a"), "a");
}

#[test]
fn checksums_are_compared_without_regard_to_case() {
    assert!(equals_ignoring_case("AbC09f", "aBc09F"));
    assert!(equals_ignoring_case("", ""));
    assert!(!equals_ignoring_case("abc", "abd"));
    assert!(!equals_ignoring_case("abc", "ab"));
    assert!(!equals_ignoring_case("@", "`"));
    assert!(!equals_ignoring_case("[", "{"));
    assert!(equals_ignoring_case("Zz", "zZ"));
    assert!(!equals_ignoring_case("É", "é"));
    for (one, other) in [("AbC", "abc"), ("x", "X"), ("1", "1"), ("a", "b"), ("É", "é")] {
        assert_eq!(equals_ignoring_case(one, other), one.eq_ignore_ascii_case(other));
    }
    assert_eq!(confirm_sum("n".to_string(), "ABCD".to_string(), "abcd"), Ok(()));
    assert_eq!(
        confirm_sum("n".to_string(), "abcd".to_string(), "abce"),
        Err(VmImageHashError::HashMismatch {
            name: "n".to_string(),
            expected: "abcd".to_string(),
            actual: "abce".to_string(),
        })
    );
}

#[test]
fn an_image_is_held_against_its_file_of_checksums() {
    let index = VmImageIndex {
        arch: Arch::X86_64,
        os: Os::Linux(Linux::Debian { version: 12 }),
        image: VmImageRef::Qcow2 { url: "https://x/images/debian-12.qcow2".to_string() },
        hash: VmImageHashRef::Sha512Sums { url: "https://x/images/SHA512SUMS".to_string() },
        kernel_root: "/dev/vda1".to_string(),
        user: "debian".to_string(),
    };
    let hash = VmImageHash::new(&index.hash, "/cache/sums");
    let listed = digits("a1b2c3d4e5f6", 128);
    let sums = format!("{}  debian-11.qcow2\n{}  debian-12.qcow2\n", digits("0", 128), listed);
    assert_eq!(hash.validate_sums(&index, &sums, &listed.to_uppercase()), Ok(()));
    assert_eq!(
        hash.validate_sums(&index, &sums, &digits("0", 128)),
        Err(VmImageHashError::HashMismatch {
            name: "debian-12.qcow2".to_string(),
            expected: listed.clone(),
            actual: digits("0", 128),
        })
    );
    assert_eq!(
        hash.validate_sums(&index, "", &listed),
        Err(VmImageHashError::HashNotFound { name: "debian-12.qcow2".to_string() })
    );
    let short = VmImageHash::new(&VmImageHashRef::Sha256Sums { url: "u".to_string() }, "p");
    assert!(matches!(
        short.validate_sums(&index, &sums, &listed),
        Err(VmImageHashError::MalformedLine { line_index: 1, .. })
    ));
}
