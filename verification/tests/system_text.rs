use cosmicfetch::gpu::{gpu_memory_label, parse_gpu_output};
use cosmicfetch::os_release::{os_name, pretty_name};

#[test]
fn pretty_name_in_quotes() {
    let content = "NAME=\"Fedora Linux\"\nVERSION=\"40\"\nPRETTY_NAME=\"Fedora Linux 40 (Workstation Edition)\"\nID=fedora\n";
    assert_eq!(os_name(Some(content)), "Fedora Linux 40 (Workstation Edition)");
}

#[test]
fn pretty_name_without_quotes_and_first_wins() {
    assert_eq!(pretty_name("PRETTY_NAME=Arch Linux\nPRETTY_NAME=Other"), Some("Arch Linux".to_string()));
}

#[test]
fn pretty_name_missing() {
    assert_eq!(pretty_name("NAME=Debian\nID=debian\n"), None);
    assert_eq!(os_name(Some("NAME=Debian\n")), "Linux");
    assert_eq!(os_name(Some("")), "Linux");
    assert_eq!(os_name(None), "Linux");
}

#[test]
fn pretty_name_line_endings() {
    assert_eq!(pretty_name("ID=x\r\nPRETTY_NAME=\"Ubuntu 24.04 LTS\"\r\n"), Some("Ubuntu 24.04 LTS".to_string()));
    assert_eq!(pretty_name("PRETTY_NAME=\"A\"\r"), Some("A\"\r".to_string()));
}

#[test]
fn pretty_name_key_must_start_the_line() {
    assert_eq!(pretty_name(" PRETTY_NAME=x\nXPRETTY_NAME=y"), None);
}

#[test]
fn pretty_name_repeated_key_and_quotes() {
    assert_eq!(pretty_name("PRETTY_NAME=PRETTY_NAME=x"), Some("x".to_string()));
    assert_eq!(pretty_name("PRETTY_NAME=\"\"\"A B\"\""), Some("A B".to_string()));
    assert_eq!(pretty_name("PRETTY_NAME=\"\""), Some(String::new()));
    assert_eq!(pretty_name("PRETTY_NAME="), Some(String::new()));
}

#[test]
fn pretty_name_agrees_with_std() {
    let samples = [
        "PRETTY_NAME=\"x\"\n",
        "A=1\n\nPRETTY_NAME= \" spaced \" \n",
        "PRETTY_NAME=a\rb\nPRETTY_NAME=c",
        "\n\n",
        "PRETTY_NAME=\"q\"\"",
    ];
    for content in samples {
        let expected = content
            .lines()
            .find(|line| line.starts_with("PRETTY_NAME="))
            .map(|line| line.trim_start_matches("PRETTY_NAME=").trim_matches('"').to_string());
        assert_eq!(pretty_name(content), expected, "content {:?}", content);
    }
}

#[test]
fn gpu_report_read() {
    let r = parse_gpu_output("NVIDIA GeForce RTX 3080, 37, 1024, 10240\n").unwrap();
    assert_eq!(r.name, "NVIDIA GeForce RTX 3080");
    assert_eq!(r.usage_text, "37");
    assert_eq!(r.memory_used, 1024);
    assert_eq!(r.memory_total, 10240);
}

#[test]
fn gpu_report_first_line_only() {
    let r = parse_gpu_output("A, 1, 2, 3\nB, 4, 5, 6\n").unwrap();
    assert_eq!(r.name, "A");
    assert_eq!(r.memory_total, 3);
}

#[test]
fn gpu_report_extra_fields_and_bad_numbers() {
    let r = parse_gpu_output(" Card X ,  5.5 , [N/A], 8192 , extra").unwrap();
    assert_eq!(r.name, "Card X");
    assert_eq!(r.usage_text, "5.5");
    assert_eq!(r.memory_used, 0);
    assert_eq!(r.memory_total, 8192);
}

#[test]
fn gpu_report_too_short() {
    assert!(parse_gpu_output("").is_none());
    assert!(parse_gpu_output("A, 1, 2\n").is_none());
    assert!(parse_gpu_output("\nA, 1, 2, 3").is_none());
    assert!(parse_gpu_output("No devices were found").is_none());
}

#[test]
fn gpu_report_crlf() {
    let r = parse_gpu_output("A, 1, 2, 3\r\n").unwrap();
    assert_eq!(r.memory_total, 3);
}

#[test]
fn gpu_memory_line() {
    assert_eq!(gpu_memory_label(512, 8192), "512 / 8192 MB");
    assert_eq!(gpu_memory_label(0, 0), "0 / 0 MB");
}
