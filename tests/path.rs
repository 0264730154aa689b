use ts_json::path::{
    display_path, normalize_path, normalize_path_with, path_components, relative_path, relative_path_with, PathComponent,
};

#[test]
fn display_handles_relative() {
    let expected = "some/relative/path/1";
    let data = r"some\relative\path\1";
    assert_eq!(expected, display_path(data));

    let expected = "some/relative/path/2";
    let data = r".\some\relative\path\2";
    assert_eq!(expected, display_path(data));
}

#[test]
fn handles_windows_style() {
    let expected = r"C:\some\absolute\path\1";
    let data = r"C:\some\absolute\path\1";
    assert_eq!(expected, display_path(data));

    let expected = r"C:\some\absolute\path\2";
    let data = r"C:/some/absolute/path/2";
    assert_eq!(expected, display_path(data));
}

#[test]
fn handles_unix_style() {
    let expected = r"/some/absolute/path/1";
    let data = r"/some/absolute/path/1";
    assert_eq!(expected, display_path(data));

    let expected = r"/some/absolute/path/2";
    let data = r"\some\absolute\path\2";
    assert_eq!(expected, display_path(data));
}

#[test]
fn handles_verbatim_prefixes() {
    let expected = r"some-verbatim-path\some-more-path";
    let data = r"\\?\some-verbatim-path\some-more-path";
    assert_eq!(path_components(expected), path_components(&normalize_path(data)));

    let expected = r"T:\some-verbatim-path\some-more-path";
    let data = r"\\?\T:\some-verbatim-path\some-more-path";
    assert_eq!(path_components(expected), path_components(&normalize_path(data)));

    let expected = r"\\server\share\some-more-path";
    let data = r"\\?\UNC\server\share\some-more-path";
    assert_eq!(path_components(expected), path_components(&normalize_path(data)));
}

#[test]
fn handles_prefixes() {
    let data = r"\\server\share\some-more-path";
    assert_eq!(path_components(data), path_components(&normalize_path(data)));

    let data = r"C:\path\some-more-path";
    assert_eq!(path_components(data), path_components(&normalize_path(data)));

    let data = r"\\.\path\some-more-path";
    assert_eq!(path_components(data), path_components(&normalize_path(data)));
}

#[test]
fn handles_parent() {
    let expected = r"../../path";
    let data = r"../../some-parent/../path";
    assert_eq!(path_components(expected), path_components(&normalize_path(data)));

    let expected = r"../../../";
    let data = r"../../some-parent/../../path/..";
    assert_eq!(path_components(expected), path_components(&normalize_path(data)));
}

#[test]
fn normalize_handles_current_dir() {
    let expected = r"some/annoying/path";
    let data = r"./some/./././annoying/path/.";
    assert_eq!(path_components(expected), path_components(&normalize_path(data)));
}

#[test]
fn reads_prefixes_and_roots() {
    assert_eq!(
        vec![
            PathComponent::Prefix(r"\\server\share".to_string()),
            PathComponent::RootDir,
            PathComponent::Normal("x".to_string()),
        ],
        path_components(r"\\server\share\x")
    );
    assert_eq!(
        vec![PathComponent::CurDir, PathComponent::Normal("a".to_string())],
        path_components("./a/")
    );
    assert_eq!(r"..\..\path", normalize_path_with("../../some-parent/../path", '\\'));
    assert_eq!("../../path", normalize_path_with("../../some-parent/../path", '/'));
    assert_eq!(r"C:\a", normalize_path_with("C:/x/../a", '\\'));
    assert_eq!(std::path::Path::new("../../path"), std::path::Path::new(&normalize_path("../../some-parent/../path")));
    assert_eq!(".", display_path("./a/.."));
    assert_eq!("", normalize_path("."));
}

#[test]
fn relative_handles_relative() {
    let source = "/root/dir-a/dir-b";
    let target = "/root/dir-c/dir-d";
    assert_eq!(path_components("../../dir-c/dir-d"), path_components(&relative_path(source, target)));

    let source = "dir-a/dir-b";
    let target = "dir-a/dir-b";
    assert_eq!(path_components("."), path_components(&relative_path(source, target)));

    let source = "../dir-a/dir-b";
    let target = "./dir-a/./dir-b";
    assert_eq!(path_components("../../../dir-a/dir-b"), path_components(&relative_path(source, target)));
}

#[test]
fn relative_path_text() {
    assert_eq!(r"..\c", relative_path_with("a/b", "a/c", '\\'));
    assert_eq!("../c", relative_path_with("a/b", "a/c", '/'));
    assert_eq!(".", relative_path("x", "x"));
    assert_eq!(r"..\..", relative_path_with("a/b", "", '\\'));
}
