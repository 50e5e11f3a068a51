use cancersongpaster::files::{file_stem, CachedDirEntry};
use std::io::BufRead;
use cancersongpaster::input::SelectionError;
use cancersongpaster::songs::{
    add_song_files, check_song_file, get_song_selection, read_song_lines, select_random_song,
    song_folders, song_menu, SelectionType, SongsError, MAX_FILE_SIZE,
};

fn entry(name: &[u8], is_dir: bool, is_file: bool, size: u64) -> CachedDirEntry {
    let mut path = b"/songs/".to_vec();
    path.extend_from_slice(name);
    CachedDirEntry { file_name: name.to_vec(), file_path: path, is_dir, is_file, size }
}

fn stem(name: &str) -> String {
    String::from_utf8(file_stem(&name.as_bytes().to_vec())).unwrap()
}

#[test]
fn stems_follow_path_file_stem() {
    for name in ["song.txt", "a.b.c", ".bashrc", "noext", "..", "a.", ".", "", "..x", ".a.b"] {
        let expected = std::path::Path::new(name)
            .file_stem()
            .map(|s| s.to_str().unwrap().to_string());
        match expected {
            Some(e) => assert_eq!(stem(name), e, "{}", name),
            None => {}
        }
    }
    assert_eq!(stem("song.txt"), "song");
    assert_eq!(stem("a.b.c"), "a.b");
    assert_eq!(stem(".bashrc"), ".bashrc");
    assert_eq!(stem(".."), "..");
    assert_eq!(stem("a."), "a");
    assert_eq!(stem(""), "");
}

#[test]
fn song_file_checks() {
    assert!(check_song_file(&entry(b"a", false, true, 10)).is_ok());
    assert!(check_song_file(&entry(b"a", false, true, MAX_FILE_SIZE)).is_ok());
    assert!(matches!(check_song_file(&entry(b"a", false, true, MAX_FILE_SIZE + 1)), Err(SongsError::BadFile)));
    assert!(matches!(check_song_file(&entry(b"a", true, false, 0)), Err(SongsError::BadFile)));
    assert_eq!(MAX_FILE_SIZE, 1_000_000);
}

#[test]
fn folders_are_subfolders_then_main() {
    let items = vec![entry(b"x", true, false, 0), entry(b"f", false, true, 1), entry(b"y", true, false, 0)];
    let folders = song_folders(items, entry(b"songs", true, false, 0));
    let names: Vec<Vec<u8>> = folders.into_iter().map(|e| e.file_name).collect();
    assert_eq!(names, vec![b"x".to_vec(), b"y".to_vec(), b"songs".to_vec()]);
}

#[test]
fn only_files_are_added() {
    let mut songs = vec![entry(b"old", false, true, 1)];
    add_song_files(&mut songs, vec![entry(b"d", true, false, 0), entry(b"a", false, true, 2), entry(b"b", false, true, 3)]);
    let names: Vec<Vec<u8>> = songs.into_iter().map(|e| e.file_name).collect();
    assert_eq!(names, vec![b"old".to_vec(), b"a".to_vec(), b"b".to_vec()]);
}

#[test]
fn random_song_is_one_of_them() {
    let none: Vec<CachedDirEntry> = vec![];
    assert!(select_random_song(&none).is_none());
    let songs = vec![entry(b"a", false, true, 1), entry(b"b", false, true, 1)];
    for _ in 0..20 {
        let s = select_random_song(&songs).unwrap();
        assert!(s.file_name == b"a".to_vec() || s.file_name == b"b".to_vec());
    }
}

#[test]
fn menu_lists_stems() {
    let songs = vec![entry(b"one.txt", false, true, 1), entry(b"two", false, true, 1)];
    assert_eq!(song_menu(&songs).unwrap(), vec!["one".to_string(), "two".to_string()]);
    let bad = vec![entry(b"one.txt", false, true, 1), entry(&[0xff, 0x2e, 0x74], false, true, 1)];
    assert!(song_menu(&bad).is_none());
}

#[test]
fn chosen_song_from_menu() {
    let songs = vec![entry(b"one.txt", false, true, 1), entry(b"two.txt", false, true, 1)];
    let menu = song_menu(&songs).unwrap();
    let s = get_song_selection(&songs, &menu, true, b"two\n".to_vec()).unwrap();
    assert_eq!(s.file_name, b"two.txt".to_vec());
    assert!(matches!(get_song_selection(&songs, &menu, false, b"two\n".to_vec()), Err(SelectionError::Cancelled)));
    assert!(matches!(get_song_selection(&songs, &menu, true, b"three\n".to_vec()), Err(SelectionError::BadInput)));
}

#[test]
fn lines_of_a_song() {
    assert_eq!(read_song_lines(b"a\nb\r\nc"), vec!["a", "b", "c"]);
    assert_eq!(read_song_lines(b"a\n\n"), vec!["a", ""]);
    assert_eq!(read_song_lines(b"x\r"), vec!["x\r"]);
    assert_eq!(read_song_lines(b"a\r\r\n"), vec!["a\r"]);
    assert_eq!(read_song_lines(b""), Vec::<String>::new());
    assert_eq!(read_song_lines(b"\n"), vec![""]);
    assert_eq!(read_song_lines(b"ok\n\xff\xfe\nend\n"), vec!["ok", "end"]);
    assert_eq!(read_song_lines("строка\n".as_bytes()), vec!["строка"]);
}

#[test]
fn lines_match_buf_read() {
    let inputs: [&[u8]; 6] = [b"a\nb\r\nc", b"\r\n\r\n", b"x\ry\n", b"\xc3\n\xc3\xa9\n", b"tail\r", b"a\n\nb\n\n"];
    for input in inputs {
        let expected: Vec<String> = std::io::BufReader::new(input).lines().flatten().collect();
        assert_eq!(read_song_lines(input), expected);
    }
}

#[test]
fn selection_type_from_flag() {
    assert_eq!(SelectionType::from_flag(true), SelectionType::DMenu);
    assert_eq!(SelectionType::from_flag(false), SelectionType::Random);
}

#[test]
fn entry_ending_in_space_cannot_be_chosen() {
    let songs = vec![entry(b"song .txt", false, true, 1), entry(b"other.txt", false, true, 1)];
    let menu = song_menu(&songs).unwrap();
    assert_eq!(menu[0], "song ");
    assert!(matches!(get_song_selection(&songs, &menu, true, b"song \n".to_vec()), Err(SelectionError::BadInput)));
    assert!(matches!(get_song_selection(&songs, &menu, true, b"song".to_vec()), Err(SelectionError::BadInput)));
}

#[test]
fn duplicate_entries_pick_the_first() {
    let songs = vec![entry(b"a.txt", false, true, 1), entry(b"a.md", false, true, 2)];
    let menu = song_menu(&songs).unwrap();
    let s = get_song_selection(&songs, &menu, true, b"a\t\n".to_vec()).unwrap();
    assert_eq!(s.size, 1);
}
