use steam_optionx::codec::decode;
use steam_optionx::error::VdfError;
use steam_optionx::libraryfolders_vdf::{
    folder, installed_apps, library_folders, library_paths, read_installed_apps,
    read_library_paths, LibraryFolder,
};
use steam_optionx::node::KvNode;

fn strings(list: Vec<&str>) -> Vec<String> {
    list.into_iter().map(|text| text.to_string()).collect()
}

fn two_folders() -> &'static str {
    r#""libraryfolders"
{
	"0"
	{
		"path"		"/home/user/.local/share/Steam"
		"label"		""
		"apps"
		{
			"228980"		"472210329"
			"1234567890"		"0"
		}
	}
	"1"
	{
		"path"		"/mnt/games/SteamLibrary"
		"apps"
		{
			"1111111111"		"3"
			"70"		"512"
		}
	}
}
"#
}

#[test]
fn read_installed_apps_gives_the_union_of_both_folders() {
    let mut apps = read_installed_apps(two_folders()).unwrap();
    apps.sort();
    assert_eq!(apps, strings(vec!["1111111111", "1234567890", "228980", "70"]));
}

#[test]
fn read_installed_apps_lists_folder_after_folder() {
    assert_eq!(
        read_installed_apps(two_folders()).unwrap(),
        strings(vec!["1234567890", "228980", "1111111111", "70"])
    );
}

#[test]
fn read_library_paths_gives_both_paths_in_order() {
    assert_eq!(
        read_library_paths(two_folders()).unwrap(),
        strings(vec!["/home/user/.local/share/Steam", "/mnt/games/SteamLibrary"])
    );
}

#[test]
fn read_installed_apps_lists_an_application_of_two_folders_once() {
    let text = "\"libraryfolders\" { \"0\" { \"path\" \"a\" \"apps\" { \"10\" \"1\" \"20\" \"1\" } } \"1\" { \"path\" \"b\" \"apps\" { \"20\" \"1\" \"30\" \"1\" } } }";
    assert_eq!(read_installed_apps(text).unwrap(), strings(vec!["10", "20", "30"]));
}

#[test]
fn read_installed_apps_passes_over_what_is_no_folder() {
    let text = "\"libraryfolders\" { \"contentstatsid\" \"-41\" \"0\" { \"path\" \"a\" \"apps\" { \"10\" \"1\" } } \"1\" { \"path\" \"b\" } \"2\" { \"apps\" { \"99\" \"1\" } } \"3\" { \"path\" { } \"apps\" { \"98\" \"1\" } } \"4\" { \"path\" \"e\" \"apps\" \"none\" } }";
    assert_eq!(read_installed_apps(text).unwrap(), strings(vec!["10"]));
    assert_eq!(read_library_paths(text).unwrap(), strings(vec!["a"]));
}

#[test]
fn read_installed_apps_of_a_document_without_folders_is_empty() {
    assert_eq!(read_installed_apps("\"libraryfolders\" { }").unwrap(), Vec::<String>::new());
    assert_eq!(read_library_paths("\"libraryfolders\" { }").unwrap(), Vec::<String>::new());
}

#[test]
fn read_installed_apps_fails_on_text_that_is_no_document() {
    assert_eq!(read_installed_apps("\"libraryfolders\" { \"0\" {"), Err(VdfError::Parse));
    assert_eq!(read_library_paths("{ }"), Err(VdfError::Parse));
}

#[test]
fn library_folders_fails_on_a_node_that_is_no_document() {
    assert_eq!(library_folders(&KvNode::Scalar("x".to_string())), Err(VdfError::Schema));
    assert_eq!(library_folders(&KvNode::Section(Vec::new())), Err(VdfError::Schema));
}

#[test]
fn library_folders_keeps_keys_that_spell_no_identifier() {
    let text = "\"libraryfolders\" { \"0\" { \"path\" \"a\" \"apps\" { \"x1\" \"1\" \"7\" { } } } }";
    let folders = library_folders(&decode(text).unwrap()).unwrap();
    assert_eq!(
        folders,
        vec![LibraryFolder { path: "a".to_string(), apps: strings(vec!["7", "x1"]) }]
    );
}

#[test]
fn folder_wants_a_path_and_an_apps_section() {
    let document = decode("\"r\" { \"path\" \"p\" \"apps\" { \"1\" \"0\" } }").unwrap();
    let body = steam_optionx::codec::body_of(&document).unwrap();
    assert_eq!(
        folder(body),
        Some(LibraryFolder { path: "p".to_string(), apps: strings(vec!["1"]) })
    );
    assert_eq!(folder(&KvNode::Scalar("p".to_string())), None);
}

#[test]
fn installed_apps_and_library_paths_of_given_folders() {
    let folders = vec![
        LibraryFolder { path: "a".to_string(), apps: strings(vec!["3", "1", "3"]) },
        LibraryFolder { path: "b".to_string(), apps: strings(vec![]) },
        LibraryFolder { path: "a".to_string(), apps: strings(vec!["1", "2"]) },
    ];
    assert_eq!(installed_apps(&folders), strings(vec!["3", "1", "2"]));
    assert_eq!(library_paths(&folders), strings(vec!["a", "b", "a"]));
}

#[test]
fn read_library_paths_follows_the_keys_as_strings() {
    let text = "\"libraryfolders\" { \"2\" { \"path\" \"two\" \"apps\" { \"5\" \"1\" } } \"10\" { \"path\" \"ten\" \"apps\" { \"6\" \"1\" } } }";
    assert_eq!(read_library_paths(text).unwrap(), strings(vec!["ten", "two"]));
    assert_eq!(read_installed_apps(text).unwrap(), strings(vec!["6", "5"]));
}
