use rate_mirrors::mirror::Mirror;
use rate_mirrors::target_configs::arch4edu::Arch4eduTarget;
use rate_mirrors::targets::arch4edu::parse_mirror_url;

fn target(arch: &str) -> Arch4eduTarget {
    Arch4eduTarget {
        fetch_mirrors_timeout: 15_000,
        path_to_test: "arch4edu/x86_64/arch4edu.files".to_string(),
        arch: arch.to_string(),
        comment_prefix: "# ".to_string(),
    }
}

fn mirror() -> Mirror {
    Mirror {
        country: None,
        url: "https://mirror.example/arch4edu/".to_string(),
        url_to_test: "https://mirror.example/arch4edu/x86_64/arch4edu.files".to_string(),
        base_path: None,
    }
}

#[test]
fn parse_server_line() {
    let url = parse_mirror_url("#Server = https://mirror.example/arch4edu/$arch").unwrap();
    assert_eq!(url.as_str(), "https://mirror.example/arch4edu/");
}

#[test]
fn parse_global_server_line() {
    let url = parse_mirror_url("## Global Server = https://mirror.example/arch4edu/$arch").unwrap();
    assert_eq!(url.as_str(), "https://mirror.example/arch4edu/");
}

#[test]
fn ignore_non_server_lines() {
    assert!(parse_mirror_url("# random comment").is_none());
    assert!(parse_mirror_url("Include = /etc/pacman.d/mirrorlist").is_none());
}

#[test]
fn format_mirror_uses_arch_placeholder_for_auto() {
    let target = target("auto");
    let mirror = mirror();
    assert_eq!(
        target.format_mirror(&mirror),
        "Server = https://mirror.example/arch4edu/$arch"
    );
}

#[test]
fn format_mirror_uses_custom_arch() {
    let target = target("x86_64");
    let mirror = mirror();
    assert_eq!(
        target.format_mirror(&mirror),
        "Server = https://mirror.example/arch4edu/x86_64"
    );
}

#[test]
fn parse_normalizes_url_text() {
    // scheme and host are lowercased, a root path is added: the result is
    // the url crate's serialization, not the input text
    let url = parse_mirror_url("Server = HTTPS://MIRROR.Example").unwrap();
    assert_eq!(url.as_str(), "https://mirror.example/");
}

#[test]
fn format_comment_prefixes() {
    let target = target("auto");
    assert_eq!(target.format_comment("hello"), "# hello");
}
