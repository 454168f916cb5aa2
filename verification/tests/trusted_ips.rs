use actix_client_ip_cloudflare::{
    CfIpsFetchErr, CfIpsResponse, CfIpsResult, CidrError, IpAddr, IpCidr, Ipv4Addr, Ipv4Cidr,
    Ipv6Addr, Ipv6Cidr, TrustedIps, CF_URL_IPS,
};

/// An address from its text: four decimal octets, or eight hexadecimal
/// segments with at most one `::`.
struct Text(IpAddr);

impl std::str::FromStr for Text {
    type Err = ();

    fn from_str(s: &str) -> Result<Self, ()> {
        if s.contains(':') {
            let (head, tail) = match s.split_once("::") {
                Some((head, tail)) => (head, Some(tail)),
                None => (s, None),
            };
            let read = |part: &str| -> Result<Vec<u16>, ()> {
                if part.is_empty() {
                    return Ok(Vec::new());
                }
                part.split(':').map(|seg| u16::from_str_radix(seg, 16).map_err(|_| ())).collect()
            };
            let mut segs = read(head)?;
            let rest = read(tail.unwrap_or(""))?;
            if tail.is_some() {
                if segs.len() + rest.len() > 7 {
                    return Err(());
                }
                while segs.len() + rest.len() < 8 {
                    segs.push(0);
                }
            }
            segs.extend(rest);
            if segs.len() != 8 {
                return Err(());
            }
            Ok(Text(IpAddr::V6(Ipv6Addr::new(
                segs[0], segs[1], segs[2], segs[3], segs[4], segs[5], segs[6], segs[7],
            ))))
        } else {
            let octets: Vec<u8> =
                s.split('.').map(|o| o.parse().map_err(|_| ())).collect::<Result<_, ()>>()?;
            if octets.len() != 4 {
                return Err(());
            }
            Ok(Text(IpAddr::V4(Ipv4Addr::new(octets[0], octets[1], octets[2], octets[3]))))
        }
    }
}

fn ip(s: &str) -> IpAddr {
    s.parse::<Text>().unwrap().0
}

fn v4(prefix: [u8; 4], bits: u8) -> IpCidr {
    IpCidr::V4(Ipv4Cidr::from_prefix_and_bits(prefix, bits).unwrap())
}

fn v6(prefix: [u16; 8], bits: u8) -> IpCidr {
    IpCidr::V6(Ipv6Cidr::from_prefix_and_bits(prefix, bits).unwrap())
}

fn samples() -> Vec<IpAddr> {
    [
        "0.0.0.0",
        "9.255.255.255",
        "10.0.0.0",
        "10.0.1.1",
        "10.127.255.255",
        "10.128.0.0",
        "10.255.255.255",
        "11.0.0.0",
        "127.0.0.1",
        "172.16.0.1",
        "192.168.1.1",
        "255.255.255.255",
        "::",
        "::1",
        "::ffff:7f00:1",
        "2001:db8::1",
        "2606:4700::1111",
        "ffff:ffff:ffff:ffff:ffff:ffff:ffff:ffff",
    ]
    .iter()
    .map(|s| ip(s))
    .collect()
}

#[test]
fn cf_ips_from_response() {
    let res = CfIpsResponse::Failure { success: false };
    assert!(TrustedIps::try_from_response(res).is_err());

    let res = CfIpsResponse::Failure { success: false };
    assert!(TrustedIps::try_from_response(res).is_err());

    let res = CfIpsResponse::Success {
        result: CfIpsResult {
            ipv4_cidrs: vec![Ipv4Cidr::from_prefix_and_mask([0, 0, 0, 0], 0).unwrap()],
            ipv6_cidrs: vec![Ipv6Cidr::from_prefix_and_mask(0u128, 0).unwrap()],
        },
    };
    assert!(TrustedIps::try_from_response(res).is_ok());
}

#[test]
fn trusted_ips_membership() {
    let ips = TrustedIps::new();
    assert!(!ips.contains(ip("127.0.0.1")));
    assert!(!ips.contains(ip("10.0.1.1")));

    let ips = TrustedIps::new().add_loopback_ips();
    assert!(ips.contains(ip("127.0.0.1")));
    assert!(!ips.contains(ip("10.0.1.1")));

    let ips = TrustedIps::new().add_loopback_ips().add_private_ips();
    assert!(ips.contains(ip("127.0.0.1")));
    assert!(ips.contains(ip("10.0.1.1")));
}

#[test]
fn trusted_ips_clone() {
    let ips = TrustedIps::new().add_loopback_ips();
    assert!(ips.contains(ip("127.0.0.1")));
    assert!(!ips.contains(ip("10.0.1.1")));

    let ips = ips.clone();
    assert!(ips.contains(ip("127.0.0.1")));
    assert!(!ips.contains(ip("10.0.1.1")));
}

#[test]
fn empty_set_trusts_nobody() {
    let ips = TrustedIps::new();
    for a in samples() {
        assert!(!ips.contains(a));
    }
    let ips = TrustedIps::default();
    for a in samples() {
        assert!(!ips.contains(a));
    }
    assert!(ips.ipv4_cidrs().is_empty());
    assert!(ips.ipv6_cidrs().is_empty());
}

#[test]
fn presets_are_loopback_and_two_private_blocks() {
    let ips = TrustedIps::new().add_loopback_ips();
    assert!(ips.contains(ip("127.0.0.1")));
    assert!(ips.contains(ip("127.255.255.255")));
    assert!(!ips.contains(ip("126.255.255.255")));
    assert!(!ips.contains(ip("128.0.0.0")));
    assert!(!ips.contains(ip("10.0.1.1")));
    assert_eq!(
        ips.ipv4_cidrs(),
        vec![Ipv4Cidr::from_prefix_and_bits([127, 0, 0, 0], 8).unwrap()]
    );

    let ips = ips.add_private_ips();
    assert!(ips.contains(ip("127.0.0.1")));
    assert!(ips.contains(ip("10.0.1.1")));
    assert!(ips.contains(ip("192.168.1.1")));
    assert!(!ips.contains(ip("172.16.0.1")));
    assert!(!ips.contains(ip("192.169.0.0")));
    assert!(!ips.contains(ip("11.0.0.0")));
    assert_eq!(
        ips.ipv4_cidrs(),
        vec![
            Ipv4Cidr::from_prefix_and_bits([10, 0, 0, 0], 8).unwrap(),
            Ipv4Cidr::from_prefix_and_bits([127, 0, 0, 0], 8).unwrap(),
            Ipv4Cidr::from_prefix_and_bits([192, 168, 0, 0], 16).unwrap(),
        ]
    );
    assert!(ips.ipv6_cidrs().is_empty());
}

#[test]
fn private_preset_alone() {
    let ips = TrustedIps::new().add_private_ips();
    assert!(ips.contains(ip("10.0.1.1")));
    assert!(ips.contains(ip("192.168.1.1")));
    assert!(!ips.contains(ip("127.0.0.1")));
    assert!(!ips.contains(ip("172.16.0.1")));
}

#[test]
fn adding_a_block_twice_is_adding_it_once() {
    let once = TrustedIps::new().add_loopback_ips().add_ip_range(v4([10, 0, 0, 0], 9));
    let twice = TrustedIps::new()
        .add_loopback_ips()
        .add_ip_range(v4([10, 0, 0, 0], 9))
        .add_ip_range(v4([10, 0, 0, 0], 9));
    for a in samples() {
        assert_eq!(once.contains(a), twice.contains(a));
    }
    assert_eq!(once.ipv4_cidrs(), twice.ipv4_cidrs());
    assert_eq!(once.ipv6_cidrs(), twice.ipv6_cidrs());
    assert_eq!(twice.ipv4_cidrs().len(), 2);

    let once = TrustedIps::new().add_ip_range(v6([0x2606, 0x4700, 0, 0, 0, 0, 0, 0], 32));
    let twice = TrustedIps::new()
        .add_ip_range(v6([0x2606, 0x4700, 0, 0, 0, 0, 0, 0], 32))
        .add_ip_range(v6([0x2606, 0x4700, 0, 0, 0, 0, 0, 0], 32));
    for a in samples() {
        assert_eq!(once.contains(a), twice.contains(a));
    }
    assert_eq!(once.ipv6_cidrs(), twice.ipv6_cidrs());
    assert_eq!(twice.ipv6_cidrs().len(), 1);
}

#[test]
fn two_halves_merge_into_the_whole() {
    let ips =
        TrustedIps::new().add_ip_range(v4([10, 0, 0, 0], 9)).add_ip_range(v4([10, 128, 0, 0], 9));
    assert!(ips.contains(ip("10.0.0.0")));
    assert!(ips.contains(ip("10.0.1.1")));
    assert!(ips.contains(ip("10.127.255.255")));
    assert!(ips.contains(ip("10.128.0.0")));
    assert!(ips.contains(ip("10.255.255.255")));
    assert!(!ips.contains(ip("9.255.255.255")));
    assert!(!ips.contains(ip("11.0.0.0")));
    assert_eq!(ips.ipv4_cidrs(), vec![Ipv4Cidr::from_prefix_and_bits([10, 0, 0, 0], 8).unwrap()]);

    let whole = TrustedIps::new().add_ip_range(v4([10, 0, 0, 0], 8));
    assert_eq!(ips.ipv4_cidrs(), whole.ipv4_cidrs());

    let reversed =
        TrustedIps::new().add_ip_range(v4([10, 128, 0, 0], 9)).add_ip_range(v4([10, 0, 0, 0], 9));
    assert_eq!(reversed.ipv4_cidrs(), whole.ipv4_cidrs());
}

#[test]
fn merging_goes_on_while_a_half_meets_its_other_half() {
    let ips = TrustedIps::new()
        .add_ip_range(v4([192, 168, 0, 0], 26))
        .add_ip_range(v4([192, 168, 0, 128], 25))
        .add_ip_range(v4([192, 168, 0, 64], 26));
    assert_eq!(
        ips.ipv4_cidrs(),
        vec![Ipv4Cidr::from_prefix_and_bits([192, 168, 0, 0], 24).unwrap()]
    );

    let ips = TrustedIps::new()
        .add_ip_range(v6([0x2001, 0xdb8, 0, 0, 0, 0, 0, 0], 33))
        .add_ip_range(v6([0x2001, 0xdb8, 0x8000, 0, 0, 0, 0, 0], 33));
    assert_eq!(
        ips.ipv6_cidrs(),
        vec![Ipv6Cidr::from_prefix_and_bits([0x2001, 0xdb8, 0, 0, 0, 0, 0, 0], 32).unwrap()]
    );
    assert!(ips.contains(ip("2001:db8::1")));
    assert!(ips.contains(ip("2001:db8:ffff:ffff:ffff:ffff:ffff:ffff")));
    assert!(!ips.contains(ip("2001:db9::")));
}

#[test]
fn a_block_swallows_the_blocks_inside_it() {
    let ips = TrustedIps::new()
        .add_ip_range(v4([10, 1, 0, 0], 16))
        .add_ip_range(v4([10, 200, 3, 0], 24))
        .add_ip_range(v4([11, 0, 0, 0], 24))
        .add_ip_range(v4([10, 0, 0, 0], 8));
    assert_eq!(
        ips.ipv4_cidrs(),
        vec![
            Ipv4Cidr::from_prefix_and_bits([10, 0, 0, 0], 8).unwrap(),
            Ipv4Cidr::from_prefix_and_bits([11, 0, 0, 0], 24).unwrap(),
        ]
    );
    let ips = ips.add_ip_range(v4([10, 9, 8, 0], 24));
    assert_eq!(ips.ipv4_cidrs().len(), 2);
    assert!(ips.contains(ip("10.9.8.7")));
}

#[test]
fn neighbours_that_are_no_halves_stay_apart() {
    let ips =
        TrustedIps::new().add_ip_range(v4([10, 128, 0, 0], 9)).add_ip_range(v4([11, 0, 0, 0], 9));
    assert_eq!(
        ips.ipv4_cidrs(),
        vec![
            Ipv4Cidr::from_prefix_and_bits([10, 128, 0, 0], 9).unwrap(),
            Ipv4Cidr::from_prefix_and_bits([11, 0, 0, 0], 9).unwrap(),
        ]
    );
    assert!(!ips.contains(ip("10.127.255.255")));
    assert!(ips.contains(ip("10.128.0.0")));
    assert!(ips.contains(ip("11.127.255.255")));
    assert!(!ips.contains(ip("11.128.0.0")));
}

#[test]
fn a_duplicate_answers_alike_and_is_a_set_of_its_own() {
    let ips = TrustedIps::new()
        .add_loopback_ips()
        .add_private_ips()
        .add_ip_range(v6([0x2606, 0x4700, 0, 0, 0, 0, 0, 0], 32));
    let copy = ips.clone();
    for a in samples() {
        assert_eq!(ips.contains(a), copy.contains(a));
    }
    assert_eq!(ips.ipv4_cidrs(), copy.ipv4_cidrs());
    assert_eq!(ips.ipv6_cidrs(), copy.ipv6_cidrs());

    let copy = copy.add_ip_range(v4([172, 16, 0, 0], 12));
    assert!(copy.contains(ip("172.16.0.1")));
    assert!(!ips.contains(ip("172.16.0.1")));
    assert_eq!(ips.ipv4_cidrs().len(), 3);
    assert_eq!(copy.ipv4_cidrs().len(), 4);

    let empty = TrustedIps::new().clone();
    for a in samples() {
        assert!(!empty.contains(a));
    }
}

#[test]
fn a_successful_answer_of_everything_trusts_everybody() {
    let res = CfIpsResponse::Success {
        result: CfIpsResult {
            ipv4_cidrs: vec![Ipv4Cidr::from_prefix_and_bits([0, 0, 0, 0], 0).unwrap()],
            ipv6_cidrs: vec![Ipv6Cidr::from_prefix_and_bits(0u128, 0).unwrap()],
        },
    };
    let ips = TrustedIps::try_from_response(res).unwrap();
    for a in samples() {
        assert!(ips.contains(a));
    }
}

#[test]
fn a_successful_answer_gives_the_set_of_its_blocks() {
    let res = CfIpsResponse::Success {
        result: CfIpsResult {
            ipv4_cidrs: vec![
                Ipv4Cidr::from_prefix_and_bits([173, 245, 48, 0], 20).unwrap(),
                Ipv4Cidr::from_prefix_and_bits([103, 21, 244, 0], 22).unwrap(),
                Ipv4Cidr::from_prefix_and_bits([104, 16, 0, 0], 13).unwrap(),
                Ipv4Cidr::from_prefix_and_bits([104, 24, 0, 0], 14).unwrap(),
            ],
            ipv6_cidrs: vec![
                Ipv6Cidr::from_prefix_and_bits([0x2606, 0x4700, 0, 0, 0, 0, 0, 0], 32).unwrap(),
                Ipv6Cidr::from_prefix_and_bits([0x2400, 0xcb00, 0, 0, 0, 0, 0, 0], 32).unwrap(),
            ],
        },
    };
    let ips = TrustedIps::try_from_response(res).unwrap();
    assert!(ips.contains(ip("173.245.48.1")));
    assert!(ips.contains(ip("173.245.63.255")));
    assert!(!ips.contains(ip("173.245.64.0")));
    assert!(ips.contains(ip("103.21.247.255")));
    assert!(ips.contains(ip("104.16.0.0")));
    assert!(ips.contains(ip("104.27.255.255")));
    assert!(!ips.contains(ip("104.28.0.0")));
    assert!(ips.contains(ip("2606:4700::1111")));
    assert!(ips.contains(ip("2400:cb00:1::")));
    assert!(!ips.contains(ip("2001:db8::1")));
    assert!(!ips.contains(ip("127.0.0.1")));
    assert_eq!(ips.ipv4_cidrs().len(), 4);
    assert_eq!(
        ips.ipv6_cidrs(),
        vec![
            Ipv6Cidr::from_prefix_and_bits([0x2400, 0xcb00, 0, 0, 0, 0, 0, 0], 32).unwrap(),
            Ipv6Cidr::from_prefix_and_bits([0x2606, 0x4700, 0, 0, 0, 0, 0, 0], 32).unwrap(),
        ]
    );

    let res =
        CfIpsResponse::Success { result: CfIpsResult { ipv4_cidrs: vec![], ipv6_cidrs: vec![] } };
    let ips = TrustedIps::try_from_response(res).unwrap();
    for a in samples() {
        assert!(!ips.contains(a));
    }
}

#[test]
fn a_failed_answer_gives_the_fetch_error() {
    let res = CfIpsResponse::Failure { success: false };
    assert!(matches!(TrustedIps::try_from_response(res), Err(CfIpsFetchErr::Fetch)));
    let res = CfIpsResponse::Failure { success: true };
    assert!(matches!(TrustedIps::try_from_response(res), Err(CfIpsFetchErr::Fetch)));
    assert_eq!(CfIpsFetchErr::Fetch.to_string(), "failed to fetch");
}

#[test]
fn the_families_are_kept_apart() {
    let ips = TrustedIps::new().add_loopback_ips();
    assert!(!ips.contains(ip("::1")));
    assert!(!ips.contains(ip("::")));
    assert!(!ips.contains(ip("::ffff:7f00:1")));
    assert!(!ips.contains(ip("::7f00:1")));
    assert!(!ips.contains(ip("7f00::")));

    let ips = TrustedIps::new().add_ip_range(v6([0, 0, 0, 0, 0, 0, 0, 1], 128));
    assert!(ips.contains(ip("::1")));
    assert!(!ips.contains(ip("0.0.0.1")));
    assert!(!ips.contains(ip("127.0.0.1")));

    let ips = TrustedIps::new().add_ip_range(v6([0, 0, 0, 0, 0, 0, 0, 0], 0));
    assert!(ips.contains(ip("::ffff:7f00:1")));
    assert!(!ips.contains(ip("127.0.0.1")));
}

#[test]
fn blocks_are_made_of_a_clean_prefix_and_a_length_in_range() {
    let c = Ipv4Cidr::from_prefix_and_bits([127, 0, 0, 0], 8).unwrap();
    assert_eq!(c.get_prefix(), 0x7f00_0000);
    assert_eq!(c.get_bits(), 8);
    assert_eq!(c.get_mask(), 0xff00_0000);
    assert!(c.contains([127, 0, 0, 1]));
    assert!(c.contains(0x7fff_ffffu32));
    assert!(!c.contains(Ipv4Addr::new(128, 0, 0, 0)));
    assert_eq!(Ipv4Cidr::from_prefix_and_bits(0x0a00_0000u32, 8).unwrap().get_prefix(), 0x0a00_0000);
    assert_eq!(Ipv4Cidr::from_prefix_and_bits([1, 2, 3, 4], 32).unwrap().get_mask(), 0xffff_ffff);
    assert_eq!(Ipv4Cidr::from_prefix_and_bits([0, 0, 0, 0], 0).unwrap().get_mask(), 0);
    assert_eq!(
        Ipv4Cidr::from_prefix_and_bits([127, 0, 0, 0], 33),
        Err(CidrError::IncorrectBitsRange)
    );
    assert_eq!(
        Ipv4Cidr::from_prefix_and_bits([127, 0, 0, 1], 33),
        Err(CidrError::IncorrectBitsRange)
    );
    assert_eq!(Ipv4Cidr::from_prefix_and_bits([127, 0, 0, 1], 8), Err(CidrError::IncorrectPrefix));
    assert_eq!(Ipv4Cidr::from_prefix_and_bits([0, 0, 0, 1], 0), Err(CidrError::IncorrectPrefix));

    let c = Ipv6Cidr::from_prefix_and_bits([0x2606, 0x4700, 0, 0, 0, 0, 0, 0], 32).unwrap();
    assert_eq!(c.get_prefix(), 0x2606_4700_0000_0000_0000_0000_0000_0000);
    assert_eq!(c.get_bits(), 32);
    assert_eq!(c.get_mask(), 0xffff_ffff_0000_0000_0000_0000_0000_0000);
    assert!(c.contains(0x2606_4700_0000_0000_0000_0000_0000_1111u128));
    assert!(!c.contains(Ipv6Addr::new(0x2606, 0x4701, 0, 0, 0, 0, 0, 0)));
    assert_eq!(Ipv6Cidr::from_prefix_and_bits(1u128, 128).unwrap().get_mask(), u128::MAX);
    assert_eq!(Ipv6Cidr::from_prefix_and_bits(0u128, 129), Err(CidrError::IncorrectBitsRange));
    assert_eq!(Ipv6Cidr::from_prefix_and_bits(1u128, 127), Err(CidrError::IncorrectPrefix));
}

#[test]
fn blocks_are_made_of_a_clean_prefix_and_a_mask() {
    let c = Ipv4Cidr::from_prefix_and_mask([192, 168, 0, 0], [255, 255, 0, 0]).unwrap();
    assert_eq!(c, Ipv4Cidr::from_prefix_and_bits([192, 168, 0, 0], 16).unwrap());
    assert_eq!(Ipv4Cidr::from_prefix_and_mask([0, 0, 0, 0], 0).unwrap().get_bits(), 0);
    assert_eq!(Ipv4Cidr::from_prefix_and_mask([1, 2, 3, 4], u32::MAX).unwrap().get_bits(), 32);
    assert_eq!(
        Ipv4Cidr::from_prefix_and_mask([192, 168, 0, 0], [255, 0, 255, 0]),
        Err(CidrError::IncorrectMask)
    );
    assert_eq!(Ipv4Cidr::from_prefix_and_mask([192, 168, 0, 0], 1), Err(CidrError::IncorrectMask));
    assert_eq!(
        Ipv4Cidr::from_prefix_and_mask([192, 168, 0, 1], [255, 255, 0, 0]),
        Err(CidrError::IncorrectPrefix)
    );

    assert_eq!(Ipv6Cidr::from_prefix_and_mask(0u128, 0).unwrap().get_bits(), 0);
    let c = Ipv6Cidr::from_prefix_and_mask(
        [0x2606, 0x4700, 0, 0, 0, 0, 0, 0],
        [0xffff, 0xffff, 0, 0, 0, 0, 0, 0],
    )
    .unwrap();
    assert_eq!(c.get_bits(), 32);
    assert_eq!(Ipv6Cidr::from_prefix_and_mask(0u128, 5), Err(CidrError::IncorrectMask));
    assert_eq!(
        Ipv6Cidr::from_prefix_and_mask(1u128, [0xffff, 0, 0, 0, 0, 0, 0, 0]),
        Err(CidrError::IncorrectPrefix)
    );
}

#[test]
fn addresses_are_numbers_most_significant_part_first() {
    assert_eq!(Ipv4Addr::new(127, 0, 0, 1).to_bits(), 0x7f00_0001);
    assert_eq!(Ipv4Addr::new(1, 2, 3, 4), Ipv4Addr::from_bits(0x0102_0304));
    assert_eq!(Ipv6Addr::new(0, 0, 0, 0, 0, 0, 0, 1).to_bits(), 1);
    assert_eq!(
        Ipv6Addr::new(0x2001, 0xdb8, 0, 0, 0, 0, 0xabcd, 0x1234),
        Ipv6Addr::from_bits(0x2001_0db8_0000_0000_0000_0000_abcd_1234)
    );
    assert_eq!(ip("10.0.1.1"), IpAddr::V4(Ipv4Addr::from_bits(0x0a00_0101)));
    assert_eq!(ip("::1"), IpAddr::V6(Ipv6Addr::from_bits(1)));
}

#[test]
fn a_block_of_either_family_holds_only_its_own() {
    let b = v4([10, 0, 0, 0], 8);
    assert!(b.contains(ip("10.0.1.1")));
    assert!(!b.contains(ip("11.0.1.1")));
    assert!(!b.contains(ip("a00::")));
    let b = v6([0xa00, 0, 0, 0, 0, 0, 0, 0], 8);
    assert!(b.contains(ip("a00::")));
    assert!(b.contains(ip("aff:ffff::1")));
    assert!(!b.contains(ip("10.0.1.1")));
}

#[test]
fn the_list_is_published_by_cloudflare() {
    assert_eq!(CF_URL_IPS, "https://api.cloudflare.com/client/v4/ips");
}
