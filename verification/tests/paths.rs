use taskbook::dir::{data_dir_in, data_file_in, get_data_dir, get_data_file, join_path};

fn bytes(s: &str) -> Vec<u8> {
    s.as_bytes().to_vec()
}

#[test]
fn data_paths_under_a_base() {
    assert_eq!(data_dir_in(&bytes("/home/me/.local/share"), b'/'), bytes("/home/me/.local/share/todo"));
    assert_eq!(
        data_file_in(&bytes("/home/me/.local/share"), b'/'),
        bytes("/home/me/.local/share/todo/todo.yml")
    );
    assert_eq!(data_file_in(&bytes("/data/"), b'/'), bytes("/data/todo/todo.yml"));
}

#[test]
fn joining_paths() {
    assert_eq!(join_path(&bytes(""), &bytes("todo"), b'/'), bytes("todo"));
    assert_eq!(join_path(&bytes("a/"), &bytes("b"), b'/'), bytes("a/b"));
    assert_eq!(join_path(&bytes("a"), &bytes("b"), b'/'), bytes("a/b"));
}

#[test]
fn joining_with_backslash_separator() {
    assert_eq!(
        data_file_in(&bytes("C:\\Users\\me\\AppData\\Roaming"), b'\\'),
        bytes("C:\\Users\\me\\AppData\\Roaming\\todo\\todo.yml")
    );
    assert_eq!(join_path(&bytes("C:\\data\\"), &bytes("todo"), b'\\'), bytes("C:\\data\\todo"));
    assert_eq!(join_path(&bytes("C:/data/"), &bytes("todo"), b'\\'), bytes("C:/data/todo"));
}

#[test]
fn names_that_are_not_unicode_are_kept() {
    let base = vec![b'/', b'd', 0xff, 0xfe];
    let mut expected = base.clone();
    expected.extend_from_slice(b"/todo/todo.yml");
    assert_eq!(data_file_in(&base, b'/'), expected);
}

#[test]
fn data_file_is_inside_data_dir() {
    match (get_data_dir(), get_data_file()) {
        (Some(d), Some(f)) => {
            assert!(d.ends_with(b"todo"));
            let mut expected = d.clone();
            expected.push(std::path::MAIN_SEPARATOR as u8);
            expected.extend_from_slice(b"todo.yml");
            assert_eq!(f, expected);
        }
        (None, None) => {}
        _ => panic!("data dir and data file disagree"),
    }
}
