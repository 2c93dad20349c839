use tensor_shards::utils::order::sorted_positions;
use tensor_shards::utils::path::{file_label_of, join_path, path_key_of, same_key, text_key_of};
use tensor_shards::utils::text::{
    bracketed_of, chars_of, decimal_of, joined, pad_right, same_text,
};

#[test]
fn numbers_are_decimal() {
    assert_eq!(decimal_of(0), "0");
    assert_eq!(decimal_of(10), "10");
    assert_eq!(decimal_of(1234567890), "1234567890");
    assert_eq!(bracketed_of(&[]), "[]");
    assert_eq!(bracketed_of(&[7]), "[7]");
    assert_eq!(bracketed_of(&[1, 20, 3]), "[1, 20, 3]");
}

#[test]
fn texts_are_joined_padded_and_compared() {
    assert_eq!(joined("a", "b"), "ab");
    assert_eq!(pad_right("ab", 4), "ab  ");
    assert_eq!(pad_right("abcd", 3), "abcd");
    assert_eq!(pad_right("ä", 2), "ä ");
    assert!(same_text("x", "x"));
    assert!(!same_text("x", "X"));
    assert_eq!(chars_of("aß"), vec!['a', 'ß']);
}

#[test]
fn files_are_joined_to_directories() {
    assert_eq!(join_path("a", "b"), "a/b");
    assert_eq!(join_path("a/", "b"), "a/b");
    assert_eq!(join_path("", "b"), "b");
    assert_eq!(join_path("a", "/b"), "/b");
}

#[test]
fn paths_are_told_apart_by_components() {
    assert!(same_key(&path_key_of("a//b/./c"), &path_key_of("a/b/c/")));
    assert!(!same_key(&path_key_of("./a"), &path_key_of("a")));
    assert!(!same_key(&path_key_of("/a"), &path_key_of("a")));
    assert!(!same_key(&path_key_of("a/../b"), &path_key_of("b")));
}

#[test]
fn paths_sort_as_their_components_do() {
    let paths = ["/z", "./a", "../a", "a/b", "a-b", "a", "a/..", "b/"];
    let mut sorted: Vec<std::path::PathBuf> = paths.iter().map(std::path::PathBuf::from).collect();
    sorted.sort();
    let keys: Vec<Vec<u32>> = paths.iter().map(|p| path_key_of(p)).collect();
    let ours: Vec<std::path::PathBuf> = sorted_positions(&keys)
        .into_iter()
        .map(|i| std::path::PathBuf::from(paths[i]))
        .collect();
    assert_eq!(ours, sorted);
}

#[test]
fn names_sort_by_characters() {
    let names = ["b", "a", "ab", "", "é", "z", "日"];
    let keys: Vec<Vec<u32>> = names.iter().map(|n| text_key_of(n)).collect();
    let ours: Vec<&str> = sorted_positions(&keys).into_iter().map(|i| names[i]).collect();
    let mut sorted = names.to_vec();
    sorted.sort();
    assert_eq!(ours, sorted);
}

#[test]
fn labels_are_file_names() {
    for p in ["a/b.st", "b.st", "/b.st", "a/b.st/", "a/b.st/.", "a//b.st//./", "..", "a/..", "/",
        "", ".", "./", "/.", "./x", ".hidden", "...", "a/.."]
    {
        let expected = std::path::Path::new(p)
            .file_name()
            .unwrap_or_default()
            .to_string_lossy()
            .to_string();
        assert_eq!(file_label_of(p), expected, "{p}");
    }
    assert_eq!(file_label_of("dir/model-1.safetensors"), "model-1.safetensors");
}
