use ip6gen::address::Address;
use ip6gen::error::Error;
use ip6gen::network::Network;
use ip6gen::{assemble, ip, ip6, subnet};

const NAME: &str = "c0a010fb-2632-40cb-a105-90297cba567a";

fn address(segments: [u16; 8]) -> Address {
    Address { segments }
}

#[test]
fn ip_is_valid() {
    match ip("c0a010fb-2632-40cb-a105-90297cba567a", "fd52:f6b0:3162::/48") {
        Ok(_) => {
            // yay!
        }
        Err(err) => panic!("{}", err.message()),
    };
}

#[test]
fn ip_keeps_the_network_and_fills_the_rest_from_the_digest() {
    let got = ip(NAME, "fd52:f6b0:3162::/48").unwrap();
    assert_eq!(
        got,
        address([0xfd52, 0xf6b0, 0x3162, 0x440c, 0x925b, 0x0b5c, 0xb23c, 0x600e])
    );
    assert_eq!(&got.expand()[..12], "fd52f6b03162");
    assert_eq!(&got.expand()[12..], "440c925b0b5cb23c600e");
}

#[test]
fn ip_with_an_odd_number_of_generated_digits_drops_the_last_digit_of_the_digest() {
    let got = ip(NAME, "fd52:f6b0:3162:a000::/52").unwrap();
    assert_eq!(
        got,
        address([0xfd52, 0xf6b0, 0x3162, 0xa440, 0xc925, 0xb0b5, 0xcb23, 0xc600])
    );
}

#[test]
fn ip_rounds_a_prefix_down_to_whole_digits() {
    assert_eq!(
        ip(NAME, "fd52:f6b0:3162::/50").unwrap(),
        ip(NAME, "fd52:f6b0:3162::/48").unwrap()
    );
    assert_eq!(
        ip("x", "fd52:f6b0:3162::1/3").unwrap(),
        address([0x442a, 0x4445, 0x7137, 0x672b, 0x3218, 0xc100, 0x7dc8, 0xf76a])
    );
}

#[test]
fn ip_with_an_empty_prefix_is_all_digest() {
    assert_eq!(
        ip("x", "::/0").unwrap(),
        address([0x442a, 0x4445, 0x7137, 0x672b, 0x3218, 0xc100, 0x7dc8, 0xf76a])
    );
}

#[test]
fn ip_with_the_longest_prefix_generates_one_digit() {
    assert_eq!(
        ip("x", "fd52:f6b0:3162::/127").unwrap(),
        address([0xfd52, 0xf6b0, 0x3162, 0, 0, 0, 0, 0x000e])
    );
}

#[test]
fn ip_with_a_64_bit_prefix() {
    assert_eq!(
        ip("x", "fd52:f6b0:3162::/64").unwrap(),
        address([0xfd52, 0xf6b0, 0x3162, 0x0000, 0x4adf, 0x4367, 0xf96e, 0x584f])
    );
}

#[test]
fn ip_hashes_the_utf8_bytes_of_the_name() {
    assert_eq!(
        ip("héllo wörld", "FD52:F6B0:3162::/64").unwrap(),
        address([0xfd52, 0xf6b0, 0x3162, 0x0000, 0x6b09, 0x7958, 0x5d8e, 0x5913])
    );
}

#[test]
fn ip_is_deterministic() {
    for cidr in ["fd52:f6b0:3162::/48", "2001:db8::/32", "::/0", "fd52::/127"] {
        for name in ["", "x", "alpha", NAME] {
            assert_eq!(ip(name, cidr), ip(name, cidr));
        }
    }
    assert_eq!(ip("x", "fd52::/128"), ip("x", "fd52::/128"));
    assert_eq!(ip("x", "not-a-cidr"), ip("x", "not-a-cidr"));
}

#[test]
fn ip_preserves_the_prefix_digits() {
    let base = address([0xfd52, 0xf6b0, 0x3162, 0xabcd, 0x1234, 0x5678, 0x9abc, 0xdef0]);
    let mut prefix: u8 = 0;
    while prefix < 128 {
        let cidr = format!("fd52:f6b0:3162:abcd:1234:5678:9abc:def0/{}", prefix);
        let got = ip("some name", &cidr).unwrap();
        let kept = prefix as usize / 4;
        assert_eq!(&got.expand()[..kept], &base.expand()[..kept]);
        prefix += 1;
    }
}

#[test]
fn ip_gives_different_names_different_addresses() {
    let mut seen: Vec<Address> = Vec::new();
    let mut i: u32 = 0;
    while i < 500 {
        let got = ip(&format!("host-{}", i), "fd52:f6b0:3162::/64").unwrap();
        assert!(!seen.contains(&got));
        seen.push(got);
        i += 1;
    }
    assert_eq!(
        ip("alpha", "2001:db8::/32").unwrap(),
        address([0x2001, 0x0db8, 0xc7f7, 0x6fbf, 0x203b, 0xc824, 0xdc97, 0x7da5])
    );
    assert_eq!(
        ip("beta", "2001:db8::/32").unwrap(),
        address([0x2001, 0x0db8, 0x5a19, 0x54f0, 0xcff9, 0xe527, 0x2335, 0x4bf9])
    );
}

#[test]
fn ip_refuses_a_full_address() {
    let full = Error::AlreadyFullAddress {
        address: address([0xfd52, 0xf6b0, 0x3162, 0, 0, 0, 0, 0]),
        prefix: 128,
    };
    assert_eq!(ip("x", "fd52:f6b0:3162::/128"), Err(full.clone()));
    for name in ["", "alpha", NAME] {
        assert_eq!(ip(name, "fd52:f6b0:3162::/128"), Err(full.clone()));
    }
    assert!(matches!(
        ip("x", "::1/128"),
        Err(Error::AlreadyFullAddress { prefix: 128, .. })
    ));
}

#[test]
fn ip_refuses_what_is_no_network() {
    assert!(matches!(ip("x", "not-a-cidr"), Err(Error::InvalidNetwork(_))));
    assert!(matches!(ip("x", ""), Err(Error::InvalidNetwork(_))));
    assert!(matches!(ip("x", "fd52:f6b0:3162::/129"), Err(Error::InvalidNetwork(_))));
    assert!(matches!(ip("x", "fd52:f6b0:3162::/"), Err(Error::InvalidNetwork(_))));
    assert!(matches!(ip("x", "fd52:f6b0:3162::/48/48"), Err(Error::InvalidNetwork(_))));
    assert!(matches!(ip("x", "192.168.0.0/16"), Err(Error::InvalidNetwork(_))));
}

#[test]
fn ip_results_read_back_from_their_text() {
    for cidr in ["fd52:f6b0:3162::/48", "2001:db8::/33", "::/0", "fd52::/127"] {
        let got = ip(NAME, cidr).unwrap();
        let text = got.text();
        assert_eq!(text.len(), 39);
        assert_eq!(text.split(':').count(), 8);
        assert!(text.split(':').all(|group| group.len() == 4));
        assert_eq!(Address::parse(&text), Some(got));
    }
}

#[test]
fn ip6_generates_in_a_given_network() {
    let net = Network {
        address: address([0xfd52, 0xf6b0, 0x3162, 0, 0, 0, 0, 0]),
        prefix: 48,
    };
    assert_eq!(
        ip6(NAME, net),
        Ok(address([0xfd52, 0xf6b0, 0x3162, 0x440c, 0x925b, 0x0b5c, 0xb23c, 0x600e]))
    );
    assert_eq!(ip6(NAME, net), ip(NAME, "fd52:f6b0:3162::/48"));
}

#[test]
fn ip6_overwrites_the_host_digits_of_the_base_address() {
    let net = Network {
        address: address([0xfd52, 0xf6b0, 0x3162, 0xffff, 0xffff, 0xffff, 0xffff, 0xffff]),
        prefix: 48,
    };
    assert_eq!(
        ip6(NAME, net),
        Ok(address([0xfd52, 0xf6b0, 0x3162, 0x440c, 0x925b, 0x0b5c, 0xb23c, 0x600e]))
    );
}

#[test]
fn assemble_joins_network_digits_and_digest_digits() {
    let net = Network {
        address: address([0xfd52, 0xf6b0, 0x3162, 0xa000, 0, 0, 0, 0]),
        prefix: 52,
    };
    assert_eq!(
        assemble(net, "0123456789abcdef0123"),
        Ok(address([0xfd52, 0xf6b0, 0x3162, 0xa012, 0x3456, 0x789a, 0xbcde, 0xf012]))
    );
}

#[test]
fn assemble_reads_digits_of_either_case() {
    let net = Network { address: address([0; 8]), prefix: 112 };
    assert_eq!(assemble(net, "AbCd"), Ok(address([0, 0, 0, 0, 0, 0, 0, 0xabcd])));
}

#[test]
fn assemble_ignores_what_follows_the_digits_it_takes() {
    let net = Network { address: address([0; 8]), prefix: 112 };
    assert_eq!(assemble(net, "12345 and more"), Ok(address([0, 0, 0, 0, 0, 0, 0, 0x1234])));
}

#[test]
fn assemble_of_a_full_network_is_its_address() {
    let base = address([1, 2, 3, 4, 5, 6, 7, 8]);
    let net = Network { address: base, prefix: 128 };
    assert_eq!(assemble(net, ""), Ok(base));
    assert_eq!(assemble(net, "zz"), Ok(base));
}

#[test]
fn assemble_refuses_a_digest_that_is_too_short() {
    let net = Network {
        address: address([0xfd52, 0xf6b0, 0x3162, 0, 0, 0, 0, 0]),
        prefix: 96,
    };
    assert_eq!(
        assemble(net, "abcdef"),
        Err(Error::AssemblyError(String::from("fd52:f6b0:3162:0000:0000:0000:abcd:ef")))
    );
    assert_eq!(
        assemble(net, ""),
        Err(Error::AssemblyError(String::from("fd52:f6b0:3162:0000:0000:0000")))
    );
}

#[test]
fn assemble_refuses_what_is_no_digit() {
    let net = Network {
        address: address([0xfd52, 0xf6b0, 0x3162, 0, 0, 0, 0, 0]),
        prefix: 96,
    };
    assert_eq!(
        assemble(net, "abcdefgh"),
        Err(Error::AssemblyError(String::from("fd52:f6b0:3162:0000:0000:0000:abcd:efgh")))
    );
    assert_eq!(
        assemble(net, "12:45678"),
        Err(Error::AssemblyError(String::from("fd52:f6b0:3162:0000:0000:0000:12:4:5678")))
    );
}

#[test]
fn subnet_is_the_two_byte_digest_in_hexadecimal() {
    assert_eq!(subnet("alpha"), "0cf8");
    assert_eq!(subnet("beta"), "d5f0");
    assert_eq!(subnet("x"), "269d");
    assert_eq!(subnet(""), "b1fe");
    assert_eq!(subnet(NAME), "852d");
}

#[test]
fn subnet_differs_between_alpha_and_beta() {
    assert_ne!(subnet("alpha"), subnet("beta"));
    assert_eq!(subnet("alpha").len(), 4);
    assert_eq!(subnet("beta").len(), 4);
}

#[test]
fn subnet_is_four_lowercase_hexadecimal_digits_every_time() {
    let mut i: u32 = 0;
    while i < 200 {
        let name = format!("subnet-{}", i);
        let tag = subnet(&name);
        assert_eq!(tag.chars().count(), 4);
        assert!(tag.chars().all(|c| matches!(c, '0'..='9' | 'a'..='f')));
        assert_eq!(tag, subnet(&name));
        i += 1;
    }
}

#[test]
fn network_parse_reads_address_and_prefix() {
    assert_eq!(
        Network::parse("fd52:f6b0:3162::/48"),
        Ok(Network {
            address: address([0xfd52, 0xf6b0, 0x3162, 0, 0, 0, 0, 0]),
            prefix: 48,
        })
    );
    assert_eq!(
        Network::parse("FF01:0:0:17:0:0:0:2/65"),
        Ok(Network {
            address: address([0xff01, 0, 0, 0x17, 0, 0, 0, 2]),
            prefix: 65,
        })
    );
    assert!(matches!(Network::parse("not-a-cidr"), Err(Error::InvalidNetwork(_))));
    assert!(matches!(Network::parse("::/200"), Err(Error::InvalidNetwork(_))));
}

#[test]
fn messages_name_the_values() {
    let full = ip("x", "fd52:f6b0:3162::/128").unwrap_err();
    assert_eq!(
        full.message(),
        "fd52:f6b0:3162:0000:0000:0000:0000:0000/128 is already a full IPv6 address"
    );
    let other = Error::AlreadyFullAddress { address: address([0; 8]), prefix: 7 };
    assert_eq!(
        other.message(),
        "0000:0000:0000:0000:0000:0000:0000:0000/7 is already a full IPv6 address"
    );
    let net = Network { address: address([0; 8]), prefix: 112 };
    let broken = assemble(net, "xyz").unwrap_err();
    assert_eq!(
        broken.message(),
        "generated IPv6 address (0000:0000:0000:0000:0000:0000:0000:xyz) has invalid IPv6 address syntax"
    );
    let invalid = ip("x", "not-a-cidr").unwrap_err();
    assert!(!invalid.message().is_empty());
    match invalid {
        Error::InvalidNetwork(said) => assert_eq!(said, ip("x", "not-a-cidr").unwrap_err().message()),
        _ => panic!("not an invalid network"),
    }
}
