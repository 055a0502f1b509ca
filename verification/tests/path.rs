use random_pickfile::path::components_of;
use std::path::Component;

fn components(path: &str, sep: char) -> Vec<String> {
    components_of(path, sep).iter().map(|v| v.iter().collect()).collect()
}

fn strings(xs: &[&str]) -> Vec<String> {
    xs.iter().map(|s| s.to_string()).collect()
}

/// The components std gives on this system, written as `components_of`
/// writes them.
fn std_components(path: &str) -> Vec<String> {
    std::path::Path::new(path)
        .components()
        .map(|c| match c {
            Component::RootDir => "/".to_string(),
            Component::CurDir => ".".to_string(),
            Component::ParentDir => "n..".to_string(),
            Component::Normal(x) => format!("n{}", x.to_string_lossy()),
            Component::Prefix(_) => "p".to_string(),
        })
        .collect()
}

#[test]
fn unix_components_as_std_gives_them() {
    let cases: [(&str, &[&str]); 9] = [
        ("a//b/", &["na", "nb"]),
        ("/a/./b", &["/", "na", "nb"]),
        ("./a", &[".", "na"]),
        (".", &["."]),
        ("", &[]),
        ("/", &["/"]),
        ("a/../b", &["na", "n..", "nb"]),
        ("//a", &["/", "na"]),
        ("C:\\x", &["nC:\\x"]),
    ];
    for (path, expected) in cases {
        assert_eq!(components(path, '/'), strings(expected));
        if std::path::MAIN_SEPARATOR == '/' {
            assert_eq!(components(path, '/'), std_components(path));
        }
    }
}

#[test]
fn windows_prefixes_and_roots() {
    assert_eq!(components("C:\\w\\x", '\\'), strings(&["pdC", "/", "nw", "nx"]));
    assert_eq!(components("c:/w/x", '\\'), strings(&["pdC", "/", "nw", "nx"]));
    assert_eq!(components("C:", '\\'), strings(&["pdC"]));
    assert_eq!(components("C:x", '\\'), strings(&["pdC", "nx"]));
    assert_eq!(components("C:.\\x", '\\'), strings(&["pdC", "nx"]));
    assert_eq!(components("\\\\server\\share\\a", '\\'), strings(&["pwserver\\share", "/", "na"]));
    assert_eq!(components("//server/share", '\\'), strings(&["pwserver\\share", "/"]));
    assert_eq!(components("\\server\\share\\a", '\\'), strings(&["/", "nserver", "nshare", "na"]));
    assert_eq!(components("\\\\server\\", '\\'), strings(&["/", "nserver"]));
    assert_eq!(components("\\\\.\\COM1", '\\'), strings(&["pnCOM1", "/"]));
    assert_eq!(components("\\\\?\\C:\\a/b", '\\'), strings(&["pkC", "/", "na/b"]));
    assert_eq!(components("\\\\?\\UNC\\srv\\sh\\.\\x", '\\'), strings(&["pusrv\\sh", "/", ".", "nx"]));
    assert_eq!(components("\\\\?\\pipe", '\\'), strings(&["pvpipe"]));
    assert_eq!(components("//?/x/y", '\\'), strings(&["pw?\\x", "/", "ny"]));
    assert_eq!(components(".\\a", '\\'), strings(&[".", "na"]));
}
