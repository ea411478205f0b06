use ilo_hw_metrics::extract::{extract_ipv4, ExtractError};

#[test]
fn scenario_labelled_line() {
    let text = b"1 IP Address  : 10.0.0.5\n";
    assert_eq!(extract_ipv4(text), Ok(b"10.0.0.5".to_vec()));
}

#[test]
fn tool_output_shape() {
    let text = b"Set in Progress         : Set Complete\n\
IP Address Source       : Static Address\n\
IP Address              : 192.168.20.31\n\
Subnet Mask             : 255.255.255.0\n";
    assert_eq!(extract_ipv4(text), Ok(b"192.168.20.31".to_vec()));
}

#[test]
fn no_labelled_line_is_not_found() {
    let text = b"MAC Address             : aa:bb:cc:dd:ee:ff\nGateway : 10.0.0.1\n";
    assert_eq!(extract_ipv4(text), Err(ExtractError::NotFound));
}

#[test]
fn sentinel_text_is_not_found() {
    assert_eq!(
        extract_ipv4(b"Cannot get the IP address."),
        Err(ExtractError::NotFound)
    );
}

#[test]
fn first_matching_line_wins() {
    let text = b"IP Address : 10.1.1.1\nIP Address : 10.2.2.2\n";
    assert_eq!(extract_ipv4(text), Ok(b"10.1.1.1".to_vec()));
}

#[test]
fn octets_are_not_range_checked() {
    let text = b"IP Address : 999.1.2.3\n";
    assert_eq!(extract_ipv4(text), Ok(b"999.1.2.3".to_vec()));
}

#[test]
fn four_digit_group_does_not_match() {
    let text = b"IP Address : 1234.5.6.7\n";
    assert_eq!(extract_ipv4(text), Err(ExtractError::NotFound));
}

#[test]
fn long_final_run_is_truncated_to_three_digits() {
    let text = b"IP Address : 1.2.3.45678\n";
    assert_eq!(extract_ipv4(text), Ok(b"1.2.3.456".to_vec()));
}

#[test]
fn label_and_address_must_share_a_line() {
    let text = b"IP Address\n: 10.0.0.5\n";
    assert_eq!(extract_ipv4(text), Err(ExtractError::NotFound));
}

#[test]
fn colon_needs_a_following_space() {
    let text = b"IP Address :10.0.0.5\n";
    assert_eq!(extract_ipv4(text), Err(ExtractError::NotFound));
}

#[test]
fn later_colon_on_the_line_still_matches() {
    let text = b"2 IP Address : dhcp : 172.16.0.9 end\n";
    assert_eq!(extract_ipv4(text), Ok(b"172.16.0.9".to_vec()));
}
