use template_downloader::catalog::Template;
use template_downloader::downloader::{
    dated_images, download_file_name, escape_regex, is_dated_name, listing_url, newest_image,
    next_download_attempt, resolve_download_url, text_less, ResolveError,
};

fn template(link: &str, artifact: Option<&str>) -> Template {
    Template { name: "CentOS Stream 9".to_string(), vmid: 3000, link: link.to_string(), artifact: artifact.map(|a| a.to_string()) }
}

const LISTING: &str = r#"<html><body>
<a href="CentOS-Stream-GenericCloud-9-20240101.0.x86_64.qcow2">a</a>
<a href="CentOS-Stream-GenericCloud-9-20240703.1.x86_64.qcow2">b</a>
<a href="CentOS-Stream-GenericCloud-9-20240703.1.x86_64.qcow2.SHA256SUM">c</a>
<a href="CentOS-Stream-GenericCloud-9-20230101.0.x86_64.qcow2">d</a>
<a href="CentOS-Stream-Container-9-20250101.0.x86_64.qcow2">e</a>
</body></html>"#;

#[test]
fn direct_link_needs_no_listing() {
    let t = template("https://cloud-images.ubuntu.com/noble/current/noble.img", None);
    assert_eq!(listing_url(&t), None);
    assert_eq!(resolve_download_url(&t, "ignored").unwrap(), "https://cloud-images.ubuntu.com/noble/current/noble.img");
}

#[test]
fn newest_dated_image_is_chosen() {
    let t = template("https://cloud.centos.org/centos/9-stream/x86_64/images///", Some("CentOS-Stream-GenericCloud-9-"));
    assert_eq!(listing_url(&t).as_deref(), Some("https://cloud.centos.org/centos/9-stream/x86_64/images/"));
    assert_eq!(
        resolve_download_url(&t, LISTING).unwrap(),
        "https://cloud.centos.org/centos/9-stream/x86_64/images/CentOS-Stream-GenericCloud-9-20240703.1.x86_64.qcow2"
    );
}

#[test]
fn artifact_is_matched_literally() {
    // The '.' of the artifact is escaped: it does not match any character.
    let t = template("https://x/images", Some("Fedora.Cloud-"));
    let listing = r#"<a href="FedoraXCloud-1.qcow2">x</a>"#;
    assert!(matches!(resolve_download_url(&t, listing), Err(ResolveError::NoMatchingImage)));
    let listing = r#"<a href="Fedora.Cloud-42-1.1.qcow2">x</a>"#;
    assert_eq!(resolve_download_url(&t, listing).unwrap(), "https://x/images/Fedora.Cloud-42-1.1.qcow2");
}

#[test]
fn no_matching_image_is_an_error() {
    let t = template("https://x/images/", Some("AlmaLinux-9-"));
    assert!(matches!(resolve_download_url(&t, LISTING), Err(ResolveError::NoMatchingImage)));
    assert!(matches!(resolve_download_url(&t, ""), Err(ResolveError::NoMatchingImage)));
}

#[test]
fn newest_is_greatest_string() {
    let list: Vec<String> = ["b-2", "b-10", "a-9", "b-2"].iter().map(|s| s.to_string()).collect();
    assert_eq!(newest_image(&list).as_deref(), Some("b-2"));
    let mut sorted = list.clone();
    sorted.sort();
    sorted.reverse();
    assert_eq!(newest_image(&list), sorted.first().cloned());
    assert_eq!(newest_image(&[]), None);
    let a: Vec<char> = "ab".chars().collect();
    let b: Vec<char> = "abc".chars().collect();
    assert!(text_less(&a, &b));
    assert!(!text_less(&b, &a));
    assert!(!text_less(&a, &a));
}

#[test]
fn three_retries_with_growing_waits() {
    assert_eq!(next_download_attempt(false, 0), Some(1));
    assert_eq!(next_download_attempt(false, 1), Some(2));
    assert_eq!(next_download_attempt(false, 2), Some(3));
    assert_eq!(next_download_attempt(false, 3), None);
    assert_eq!(next_download_attempt(true, 0), None);
}

#[test]
fn download_names() {
    assert_eq!(download_file_name(Some("noble.img".to_string()), 1001), "noble.img");
    assert_eq!(download_file_name(None, 1001), "template-1001.img");
    assert_eq!(download_file_name(None, -5), "template--5.img");
}

#[test]
fn oversized_pattern_is_rejected() {
    // A pattern whose compiled form exceeds the regex size limit does not compile.
    let artifact = "a".repeat(3_000_000);
    let t = template("https://x/images", Some(&artifact));
    assert!(matches!(resolve_download_url(&t, "listing"), Err(ResolveError::InvalidPattern(_))));
}

#[test]
fn latest_link_loses_to_dated_image() {
    let t = template("https://cloud.centos.org/centos/9-stream/x86_64/images/", Some("CentOS-Stream-GenericCloud-9-"));
    let listing = r#"<a href="CentOS-Stream-GenericCloud-9-latest.x86_64.qcow2">l</a>
<a href="CentOS-Stream-GenericCloud-9-20240703.1.x86_64.qcow2">b</a>
<a href="CentOS-Stream-GenericCloud-9-20240101.0.x86_64.qcow2">a</a>"#;
    assert_eq!(
        resolve_download_url(&t, listing).unwrap(),
        "https://cloud.centos.org/centos/9-stream/x86_64/images/CentOS-Stream-GenericCloud-9-20240703.1.x86_64.qcow2"
    );
    // A listing with only the -latest link has no dated image.
    let only_latest = r#"<a href="CentOS-Stream-GenericCloud-9-latest.x86_64.qcow2">l</a>"#;
    assert!(matches!(resolve_download_url(&t, only_latest), Err(ResolveError::NoMatchingImage)));
}

#[test]
fn release_numbers_count_as_dated() {
    let t = template("https://x/releases/42/Cloud/x86_64/images", Some("Fedora-Cloud-Base-Generic"));
    let listing = r#"<a href="Fedora-Cloud-Base-Generic-42-1.1.x86_64.qcow2">f</a>
<a href="Fedora-Cloud-Base-Generic-latest.x86_64.qcow2">l</a>"#;
    assert_eq!(
        resolve_download_url(&t, listing).unwrap(),
        "https://x/releases/42/Cloud/x86_64/images/Fedora-Cloud-Base-Generic-42-1.1.x86_64.qcow2"
    );
}

#[test]
fn dated_names_are_kept_in_order() {
    let chars = |s: &str| s.chars().collect::<Vec<char>>();
    assert!(is_dated_name(&chars("img-20240101.qcow2"), 3));
    assert!(is_dated_name(&chars("img--7.qcow2"), 3));
    assert!(is_dated_name(&chars("img7.qcow2"), 3));
    assert!(!is_dated_name(&chars("img-latest.qcow2"), 3));
    assert!(!is_dated_name(&chars("img---"), 3));
    assert!(!is_dated_name(&chars("img"), 5));
    let names: Vec<String> = ["a-1", "a-latest", "a-2", "a-x1"].iter().map(|s| s.to_string()).collect();
    assert_eq!(dated_images(names, 1), vec!["a-1".to_string(), "a-2".to_string()]);
}

#[test]
fn escaping_marks_meta_characters() {
    assert_eq!(escape_regex("Fedora.Cloud-Base"), "Fedora\\.Cloud\\-Base");
    assert_eq!(escape_regex("a+b*c?(d)|[e]{f}^$#&~\\"), "a\\+b\\*c\\?\\(d\\)\\|\\[e\\]\\{f\\}\\^\\$\\#\\&\\~\\\\");
    assert_eq!(escape_regex("plain_text 9"), "plain_text 9");
    assert_eq!(escape_regex(""), "");
}
