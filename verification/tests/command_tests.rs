use ilo_hw_metrics::command::{status_text, CommandIpmi};
use ilo_hw_metrics::extract::{extract_ipv4, ExtractError};

#[test]
fn run_names_the_fixed_command_line() {
    let c = CommandIpmi::run();
    assert_eq!(c.command, "ipmitool".to_string());
    assert_eq!(c.arguments, vec!["lan".to_string(), "print".to_string()]);
}

#[test]
fn decoded_output_passes_through() {
    let text = status_text(Some(b"IP Address : 10.0.0.5\n".to_vec()));
    assert_eq!(text, b"IP Address : 10.0.0.5\n".to_vec());
}

#[test]
fn decode_failure_substitutes_the_sentinel() {
    let text = status_text(None);
    assert_eq!(text, b"Cannot get the IP address.".to_vec());
}

#[test]
fn sentinel_flows_into_a_not_found_extraction() {
    let text = status_text(None);
    assert_eq!(extract_ipv4(&text), Err(ExtractError::NotFound));
}
