use reqaz::path::{directory, extension_of_text, file_name, join, trim};

fn chars(s: &str) -> Vec<char> {
    s.chars().collect()
}

fn text(v: Vec<char>) -> String {
    v.into_iter().collect()
}

#[test]
fn last_segment() {
    assert_eq!(text(file_name(&chars("/a/b.css"))), "b.css");
    assert_eq!(text(file_name(&chars("b.css"))), "b.css");
    assert_eq!(text(file_name(&chars("/a/"))), "a");
    assert_eq!(text(file_name(&chars("/a/b.css//"))), "b.css");
    assert_eq!(text(file_name(&chars("/a/b.css/."))), "b.css");
    assert_eq!(text(file_name(&chars("/a/./"))), "a");
    assert_eq!(text(file_name(&chars("/a/.."))), "..");
    assert_eq!(text(file_name(&chars("/"))), "");
    assert_eq!(text(file_name(&chars("/."))), "");
    assert_eq!(text(file_name(&chars(""))), "");
}

#[test]
fn directory_part() {
    assert_eq!(text(directory(&chars("/a/b.css"))), "/a/");
    assert_eq!(text(directory(&chars("/b.css"))), "/");
    assert_eq!(text(directory(&chars("b.css"))), "");
    assert_eq!(text(directory(&chars("/a/b/"))), "/a/b/");
}

#[test]
fn extensions() {
    assert_eq!(extension_of_text("/a/b.css"), Some("css".to_string()));
    assert_eq!(extension_of_text("/a/b.tar.gz"), Some("gz".to_string()));
    assert_eq!(extension_of_text("/a.b/c"), None);
    assert_eq!(extension_of_text("/a/.profile"), None);
    assert_eq!(extension_of_text("/a/.."), None);
    assert_eq!(extension_of_text("/a/..."), Some(String::new()));
    assert_eq!(extension_of_text("/a/b."), Some(String::new()));
    assert_eq!(extension_of_text(""), None);
    assert_eq!(extension_of_text("/a/b.css/"), Some("css".to_string()));
    assert_eq!(extension_of_text("/a/b.css/."), Some("css".to_string()));
    assert_eq!(extension_of_text("/a/b.css/./"), Some("css".to_string()));
    assert_eq!(extension_of_text("/a/b.css/.."), None);
    assert_eq!(extension_of_text("/a.css/b"), None);
    assert_eq!(extension_of_text("/"), None);
    assert_eq!(extension_of_text("."), None);
}

#[test]
fn joining() {
    assert_eq!(text(join(&chars("/srv"), &chars("a/b"))), "/srv/a/b");
    assert_eq!(text(join(&chars("/srv/"), &chars("a/b"))), "/srv/a/b");
    assert_eq!(text(join(&chars("/srv"), &chars("/etc"))), "/etc");
    assert_eq!(text(join(&chars(""), &chars("a"))), "a");
    assert_eq!(text(join(&chars("/srv"), &chars(""))), "/srv/");
    assert_eq!(text(join(&chars("/srv/"), &chars(""))), "/srv/");
}

#[test]
fn trimming() {
    assert_eq!(text(trim(&chars("/a/b/"))), "/a/b");
    assert_eq!(text(trim(&chars("/a/b/./."))), "/a/b");
    assert_eq!(text(trim(&chars("/a/b."))), "/a/b.");
    assert_eq!(text(trim(&chars("/a/.b"))), "/a/.b");
    assert_eq!(text(trim(&chars("."))), ".");
    assert_eq!(text(trim(&chars("//"))), "");
    assert_eq!(text(trim(&chars(""))), "");
}
