use hypura::ids::long_id;
use hypura::ids::short_id;
use hypura::ids::uuid_short;
use hypura::ids::uuid_simple;
use hypura::number::format_bytes;
use hypura::number::format_parameter_size;

#[test]
fn test_format_param_size() {
    assert_eq!(format_parameter_size(24_000_000_000), "24.0B");
    assert_eq!(format_parameter_size(1_500_000_000), "1.5B");
    assert_eq!(format_parameter_size(500_000_000), "500M");
}

fn parameter_size_by_float(params: u64) -> String {
    if params >= 1_000_000_000 {
        format!("{:.1}B", params as f64 / 1e9)
    } else if params >= 1_000_000 {
        format!("{:.0}M", params as f64 / 1e6)
    } else {
        format!("{params}")
    }
}

fn byte_size_by_float(bytes: u64) -> String {
    if bytes >= 1 << 30 {
        format!("{:.1} GB", bytes as f64 / (1 << 30) as f64)
    } else if bytes >= 1 << 20 {
        format!("{:.0} MB", bytes as f64 / (1 << 20) as f64)
    } else {
        format!("{bytes} B")
    }
}

fn samples() -> Vec<u64> {
    let mut list: Vec<u64> = vec![0, 1, 9, 999_999, 1_000_000, 1_499_999, 1_500_000, 2_500_000, 999_999_999];
    list.extend([1_000_000_000, 1_050_000_000, 1_150_000_000, 1_250_000_000, 7_241_732_096, 1 << 20, (1 << 20) * 3 / 2, (1 << 20) * 5 / 2]);
    list.extend([1 << 30, (1 << 30) + (1 << 29), (1 << 53) - 1, 1 << 53, (1 << 53) + 1, u64::MAX - 1, u64::MAX]);
    let mut x: u64 = 88172645463325252;
    for shift in 0..200 {
        x ^= x << 13;
        x ^= x >> 7;
        x ^= x << 17;
        list.push(x >> (shift % 50));
    }
    for k in 0..200 {
        list.push(1_000_000_000 + k * 50_000_000);
        list.push(1_000_000 + k * 500_000);
        list.push((1 << 30) + k * ((1 << 30) / 20));
        list.push((1 << 20) + k * (1 << 19));
    }
    list
}

#[test]
fn sizes_round_as_floating_point_does() {
    for n in samples() {
        assert_eq!(format_parameter_size(n), parameter_size_by_float(n));
        assert_eq!(format_bytes(n), byte_size_by_float(n));
    }
}

#[test]
fn sizes_of_files() {
    assert_eq!(format_bytes(17), "17 B");
    assert_eq!(format_bytes(5 << 20), "5 MB");
    assert_eq!(format_bytes((1 << 30) * 5 / 2), "2.5 GB");
    assert_eq!(format_parameter_size(999_999), "999999");
}

#[test]
fn identifiers_are_hexadecimal() {
    assert_eq!(short_id(7), "00000007");
    assert_eq!(short_id(12_000_000_255), "000000ff");
    assert_eq!(short_id(999_999_999), "3b9ac9ff");
    assert_eq!(long_id(0), "0");
    assert_eq!(long_id(1_700_000_000_000_000_000), "17979cfe362a0000");
}

#[test]
fn identifiers_of_the_present_moment() {
    let id = uuid_short();
    assert_eq!(id.len(), 8);
    assert!(u32::from_str_radix(&id, 16).unwrap() < 1_000_000_000);
    let long = u128::from_str_radix(&uuid_simple(), 16).unwrap();
    assert!(long > 1_600_000_000_000_000_000);
}
