use std::collections::BTreeMap;
use steam_optionx::codec::{body_of, decode};
use steam_optionx::error::VdfError;
use steam_optionx::launch_options::{extract, merge};
use steam_optionx::localconfig_vdf::{
    apps_section, narrow, read, read_launch_options, widen, write_launch_options,
};
use steam_optionx::node::KvNode;

fn options(pairs: Vec<(u32, &str)>) -> BTreeMap<u32, String> {
    pairs.into_iter().map(|(id, text)| (id, text.to_string())).collect()
}

fn wide_options(pairs: Vec<(u64, &str)>) -> BTreeMap<u64, String> {
    pairs.into_iter().map(|(id, text)| (id, text.to_string())).collect()
}

fn sample() -> &'static str {
    r#""UserLocalConfigStore"
{
	"Broadcast"
	{
		"Permissions"		"0"
	}
	"Software"
	{
		"Valve"
		{
			"Steam"
			{
				"apps"
				{
					"1234567890"
					{
						"LaunchOptions"		"A"
					}
					"1111111111"
					{
						"cloud"
						{
							"last_sync_state"		"synchronized"
						}
						"BadgeData"		"02000000"
					}
				}
				"SurveyDate"		"2021-01-01"
			}
			"other"		"x"
		}
		"Sibling"
		{
		}
	}
	"friends"
	{
		"PersonaName"		"someone"
	}
}
"#
}

#[test]
fn read_launch_options_gives_one_entry_for_each_application() {
    assert_eq!(
        read_launch_options(sample()),
        Ok(options(vec![(1234567890, "A"), (1111111111, "")]))
    );
}

#[test]
fn read_launch_options_fails_on_text_that_is_no_document() {
    assert_eq!(read_launch_options("\"UserLocalConfigStore\" {"), Err(VdfError::Parse));
    assert_eq!(read_launch_options(""), Err(VdfError::Parse));
}

#[test]
fn read_launch_options_fails_where_a_section_of_the_chain_is_missing() {
    let texts = [
        "\"R\" { }",
        "\"R\" { \"Software\" { } }",
        "\"R\" { \"Software\" { \"Valve\" { } } }",
        "\"R\" { \"Software\" { \"Valve\" { \"Steam\" { } } } }",
        "\"R\" { \"software\" { \"Valve\" { \"Steam\" { \"apps\" { } } } } }",
    ];
    for text in texts {
        assert_eq!(read_launch_options(text), Err(VdfError::Schema), "{}", text);
    }
}

#[test]
fn read_launch_options_fails_where_a_link_of_the_chain_is_a_scalar() {
    let texts = [
        "\"R\" { \"Software\" \"x\" }",
        "\"R\" { \"Software\" { \"Valve\" \"x\" } }",
        "\"R\" { \"Software\" { \"Valve\" { \"Steam\" \"x\" } } }",
        "\"R\" { \"Software\" { \"Valve\" { \"Steam\" { \"apps\" \"x\" } } } }",
    ];
    for text in texts {
        assert_eq!(read_launch_options(text), Err(VdfError::Schema), "{}", text);
    }
}

#[test]
fn read_launch_options_takes_any_root_key() {
    let text = "\"Whatever\" { \"Software\" { \"Valve\" { \"Steam\" { \"apps\" { \"4\" { \"LaunchOptions\" \"x\" } } } } } }";
    assert_eq!(read_launch_options(text), Ok(options(vec![(4, "x")])));
}

#[test]
fn read_of_an_empty_collection_is_empty() {
    let text = "\"R\" { \"Software\" { \"Valve\" { \"Steam\" { \"apps\" { } } } } }";
    assert_eq!(read(&decode(text).unwrap()), Ok(BTreeMap::new()));
}

#[test]
fn read_fails_on_a_node_that_is_no_document() {
    assert_eq!(read(&KvNode::Scalar("x".to_string())), Err(VdfError::Schema));
    assert_eq!(read(&KvNode::Section(Vec::new())), Err(VdfError::Schema));
}

#[test]
fn apps_section_finds_the_entries() {
    let document = decode(sample()).unwrap();
    let apps = apps_section(&document).unwrap();
    let keys: Vec<&str> = apps.iter().map(|entry| entry.0.as_str()).collect();
    assert_eq!(keys, vec!["1111111111", "1234567890"]);
}

#[test]
fn write_launch_options_round_trip_of_the_scenario() {
    let edits = options(vec![(1234567890, ""), (1111111111, "B")]);
    let written = write_launch_options(sample(), &edits).unwrap();
    assert_eq!(read_launch_options(&written), Ok(options(vec![(1234567890, ""), (1111111111, "B")])));
    let document = decode(&written).unwrap();
    let apps = apps_section(&document).unwrap();
    let entry = &apps.iter().find(|entry| entry.0 == "1111111111").unwrap().1;
    assert_eq!(
        entry.get("cloud").unwrap().get_scalar("last_sync_state").unwrap(),
        "synchronized"
    );
    assert_eq!(entry.get_scalar("BadgeData").unwrap(), "02000000");
    assert_eq!(entry.get_scalar("LaunchOptions").unwrap(), "B");
    let cleared = &apps.iter().find(|entry| entry.0 == "1234567890").unwrap().1;
    assert!(cleared.get("LaunchOptions").is_none());
}

#[test]
fn write_launch_options_gives_the_exact_text() {
    let text = "\"Any\" { \"Software\" { \"Valve\" { \"Steam\" { \"apps\" { \"5\" { \"x\" \"1\" } } } } } \"z\" \"9\" }";
    let written = write_launch_options(text, &options(vec![(5, "-novid \"q\""), (6, "new")])).unwrap();
    let expected = "\"UserLocalConfigStore\"\n{\n\t\"Software\"\n\t{\n\t\t\"Valve\"\n\t\t{\n\t\t\t\"Steam\"\n\t\t\t{\n\t\t\t\t\"apps\"\n\t\t\t\t{\n\t\t\t\t\t\"5\"\n\t\t\t\t\t{\n\t\t\t\t\t\t\"LaunchOptions\"\t\"-novid \\\"q\\\"\"\n\t\t\t\t\t\t\"x\"\t\"1\"\n\t\t\t\t\t}\n\t\t\t\t\t\"6\"\n\t\t\t\t\t{\n\t\t\t\t\t\t\"LaunchOptions\"\t\"new\"\n\t\t\t\t\t}\n\t\t\t\t}\n\t\t\t}\n\t\t}\n\t}\n\t\"z\"\t\"9\"\n}\n";
    assert_eq!(written, expected);
}

#[test]
fn write_launch_options_keeps_every_other_branch() {
    let written = write_launch_options(sample(), &options(vec![(77, "-x")])).unwrap();
    let before = decode(sample()).unwrap();
    let after = decode(&written).unwrap();
    let old_body = body_of(&before).unwrap();
    let new_body = body_of(&after).unwrap();
    assert_eq!(new_body.get("Broadcast"), old_body.get("Broadcast"));
    assert_eq!(new_body.get("friends"), old_body.get("friends"));
    let old_software = old_body.get("Software").unwrap();
    let new_software = new_body.get("Software").unwrap();
    assert_eq!(new_software.get("Sibling"), old_software.get("Sibling"));
    let old_valve = old_software.get("Valve").unwrap();
    let new_valve = new_software.get("Valve").unwrap();
    assert_eq!(new_valve.get("other"), old_valve.get("other"));
    let old_steam = old_valve.get("Steam").unwrap();
    let new_steam = new_valve.get("Steam").unwrap();
    assert_eq!(new_steam.get("SurveyDate"), old_steam.get("SurveyDate"));
    let old_apps = old_steam.get("apps").unwrap();
    let new_apps = new_steam.get("apps").unwrap();
    assert_eq!(new_apps.get("1234567890"), old_apps.get("1234567890"));
    assert_eq!(new_apps.get("1111111111"), old_apps.get("1111111111"));
    assert_eq!(new_apps.get("77").unwrap().get_scalar("LaunchOptions").unwrap(), "-x");
}

#[test]
fn write_launch_options_without_edits_writes_the_document_as_it_is() {
    let written = write_launch_options(sample(), &BTreeMap::new()).unwrap();
    assert_eq!(decode(&written).unwrap(), decode(sample()).unwrap());
    let laid_out = "\"UserLocalConfigStore\"\n{\n\t\"Software\"\n\t{\n\t\t\"Valve\"\n\t\t{\n\t\t\t\"Steam\"\n\t\t\t{\n\t\t\t\t\"apps\"\n\t\t\t\t{\n\t\t\t\t\t\"5\"\n\t\t\t\t\t{\n\t\t\t\t\t\t\"LaunchOptions\"\t\"x\"\n\t\t\t\t\t}\n\t\t\t\t}\n\t\t\t}\n\t\t}\n\t}\n}\n";
    assert_eq!(write_launch_options(laid_out, &BTreeMap::new()).unwrap(), laid_out);
}

#[test]
fn write_launch_options_fails_as_reading_does() {
    assert_eq!(write_launch_options("\"R\" {", &BTreeMap::new()), Err(VdfError::Parse));
    assert_eq!(write_launch_options("\"R\" { }", &BTreeMap::new()), Err(VdfError::Schema));
    assert_eq!(
        write_launch_options("\"R\" { \"Software\" { \"Valve\" \"x\" } }", &options(vec![(1, "a")])),
        Err(VdfError::Schema)
    );
}

#[test]
fn write_puts_the_entries_in_their_place_under_the_given_key() {
    let document = decode(sample()).unwrap();
    let apps = apps_section(&document).unwrap();
    let merged = merge(apps, &wide_options(vec![(1111111111, "B")]));
    let written = steam_optionx::localconfig_vdf::write(&document, merged, "Copy").unwrap();
    assert!(written.starts_with("\"Copy\"\n{\n"));
    let reread = decode(&written).unwrap();
    assert_eq!(
        extract(apps_section(&reread).unwrap()),
        wide_options(vec![(1234567890, "A"), (1111111111, "B")])
    );
}

#[test]
fn write_fails_where_the_place_is_missing() {
    let document = decode("\"R\" { \"Software\" { } }").unwrap();
    assert_eq!(
        steam_optionx::localconfig_vdf::write(&document, Vec::new(), "R"),
        Err(VdfError::Schema)
    );
}

#[test]
fn write_launch_options_twice_writes_the_same_text() {
    let edits = options(vec![(1234567890, "-a \"b\""), (5, "x\\y"), (1111111111, "")]);
    let once = write_launch_options(sample(), &edits).unwrap();
    let twice = write_launch_options(&once, &edits).unwrap();
    assert_eq!(once, twice);
    assert_eq!(
        read_launch_options(&twice),
        Ok(options(vec![(1234567890, "-a \"b\""), (5, "x\\y"), (1111111111, "")]))
    );
}

fn wide_document() -> &'static str {
    r#""UserLocalConfigStore" { "Software" { "Valve" { "Steam" { "apps" { "4294967296" { "LaunchOptions" "x" } "7" { "k" "v" } } } } } }"#
}

#[test]
fn read_keeps_identifiers_beyond_thirty_two_bits() {
    let document = decode(wide_document()).unwrap();
    assert_eq!(read(&document), Ok(wide_options(vec![(4294967296, "x"), (7, "")])));
}

#[test]
fn read_launch_options_passes_over_identifiers_beyond_thirty_two_bits() {
    assert_eq!(read_launch_options(wide_document()), Ok(options(vec![(7, "")])));
}

#[test]
fn read_then_merge_then_write_with_wide_identifiers() {
    let document = decode(wide_document()).unwrap();
    let mut edits = read(&document).unwrap();
    edits.insert(4294967296, "y".to_string());
    edits.insert(4294967297, "new".to_string());
    let merged = merge(apps_section(&document).unwrap(), &edits);
    let written =
        steam_optionx::localconfig_vdf::write(&document, merged, "UserLocalConfigStore").unwrap();
    assert_eq!(
        read(&decode(&written).unwrap()),
        Ok(wide_options(vec![(4294967296, "y"), (4294967297, "new"), (7, "")]))
    );
}

#[test]
fn write_launch_options_leaves_entries_beyond_thirty_two_bits_alone() {
    let written = write_launch_options(wide_document(), &options(vec![(7, "-seven")])).unwrap();
    assert_eq!(
        read(&decode(&written).unwrap()),
        Ok(wide_options(vec![(4294967296, "x"), (7, "-seven")]))
    );
}

#[test]
fn narrow_and_widen_change_the_width_of_the_identifiers() {
    let wide = wide_options(vec![(0, "a"), (4294967295, "b"), (4294967296, "c")]);
    assert_eq!(narrow(&wide), options(vec![(0, "a"), (4294967295, "b")]));
    assert_eq!(
        widen(&options(vec![(0, "a"), (4294967295, "b")])),
        wide_options(vec![(0, "a"), (4294967295, "b")])
    );
}
