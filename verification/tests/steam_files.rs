use gmodpatchtool::steam::{
    parse_app_manifest, parse_compat_tool, parse_library_folders, parse_local_app_config, parse_login_users,
    select_steam_user, steam_account_id, SteamLibraryFolderEntry,
};
use gmodpatchtool::webstorage::strip_localconfig_webstorage;

// Regression: unbalanced bracket inside a quoted value (e.g. Lua code in an Overlay page title) overran the section end
#[test]
fn strip_localconfig_webstorage_unbalanced_bracket_in_value() {
    let localconfig = r#""UserLocalConfigStore"
{
	"WebStorage"
	{
		"OverlaySavedDataV2_334920_webrequests"		"{\"strTitle\":\"function widget:GetInfo() return { name\"}"
		"SomePath"		"C:\\Users\\"
	}
	"Software"
	{
		"Valve"
		{
			"Steam"
			{
				"apps"
				{
					"4000"
					{
						"LaunchOptions"		"-test"
					}
				}
			}
		}
	}
}
"#;

    let stripped = strip_localconfig_webstorage(localconfig.to_string());
    assert!(stripped.contains("\"WebStorage\"\n\t{}"));

    let parsed = parse_local_app_config(&stripped, "4000").unwrap();
    assert_eq!(parsed.unwrap().launch_options.as_deref(), Some("-test"));
}

#[test]
fn strip_localconfig_webstorage_no_section() {
    let localconfig = "\"UserLocalConfigStore\"\n{\n}\n";
    assert_eq!(strip_localconfig_webstorage(localconfig.to_string()), localconfig);
}

#[test]
fn strip_localconfig_webstorage_unclosed_section_is_kept() {
    let localconfig = "\"Store\"\n{\n\t\"WebStorage\"\n\t{\n\t\t\"a\" \"b\"\n";
    assert_eq!(strip_localconfig_webstorage(localconfig.to_string()), localconfig);
}

#[test]
fn strip_localconfig_webstorage_nested_objects() {
    let localconfig = "\"S\"\n{\n\"WebStorage\"\n{\n\"x\" { \"y\" \"}\" }\n}\n\"After\" \"1\"\n}\n";
    assert_eq!(
        strip_localconfig_webstorage(localconfig.to_string()),
        "\"S\"\n{\n\"WebStorage\"\n{}\n\"After\" \"1\"\n}\n"
    );
}

// Regression: libraryfolders.vdf can carry plain number values (e.g. contentstatsid) that aren't library folders
#[test]
fn libraryfolders_tolerates_non_folder_entries() {
    let vdf = "\"libraryfolders\"\n{\n\t\"0\"\n\t{\n\t\t\"path\"\t\"/home/x/.steam\"\n\t}\n\t\"contentstatsid\"\t\"12345\"\n}\n";
    let parsed = parse_library_folders(vdf).unwrap();
    let folders = parsed.iter().filter(|(_, entry)| matches!(entry, SteamLibraryFolderEntry::Folder(_))).count();
    assert_eq!(folders, 1);
}

#[test]
fn libraryfolders_keeps_order_and_paths() {
    let vdf = "\"libraryfolders\" { \"1\" { \"Path\" \"/b\" } \"0\" { \"path\" \"/a\" } }";
    let parsed = parse_library_folders(vdf).unwrap();
    let paths: Vec<String> = parsed
        .into_iter()
        .filter_map(|(_, e)| match e {
            SteamLibraryFolderEntry::Folder(f) => Some(f.path),
            SteamLibraryFolderEntry::Other => None,
        })
        .collect();
    assert_eq!(paths, vec!["/b".to_string(), "/a".to_string()]);
}

// Regression: a Steam Client Beta dropped MostRecent (and maybe Timestamp) from loginusers.vdf entries (#258)
#[test]
fn loginusers_missing_mostrecent_and_timestamp() {
    let loginusers = "\"users\"\n{\n\t\"76561198059701474\"\n\t{\n\t\t\"AccountName\"\t\"someuser\"\n\t\t\"PersonaName\"\t\"Some User\"\n\t}\n}\n";

    let parsed = parse_login_users(loginusers).unwrap();
    let user = &parsed.iter().find(|(id, _)| id == "76561198059701474").unwrap().1;
    assert!(!user.most_recent);
    assert_eq!(user.timestamp, 0);
    assert_eq!(user.account_name, "someuser");
}

#[test]
fn loginusers_requires_account_name() {
    let loginusers = "\"users\" { \"1\" { \"PersonaName\" \"x\" } }";
    assert!(parse_login_users(loginusers).is_none());
}

#[test]
fn loginusers_rejects_bad_numbers() {
    let loginusers = "\"users\" { \"1\" { \"AccountName\" \"a\" \"PersonaName\" \"b\" \"Timestamp\" \"12x\" } }";
    assert!(parse_login_users(loginusers).is_none());
    let loginusers = "\"users\" { \"1\" { \"AccountName\" \"a\" \"PersonaName\" \"b\" \"MostRecent\" \"2\" } }";
    assert!(parse_login_users(loginusers).is_none());
}

#[test]
fn most_recent_user_is_selected() {
    let loginusers = "\"users\" {
        \"111\" { \"AccountName\" \"a\" \"PersonaName\" \"A\" \"Timestamp\" \"900\" }
        \"222\" { \"accountname\" \"b\" \"personaname\" \"B\" \"mostrecent\" \"1\" \"timestamp\" \"100\" }
        \"333\" { \"AccountName\" \"c\" \"PersonaName\" \"C\" \"Timestamp\" \"+950\" }
    }";
    let users = parse_login_users(loginusers).unwrap();
    assert_eq!(users[2].1.timestamp, 950);
    assert_eq!(select_steam_user(&users), Some(1));
}

#[test]
fn newest_user_is_selected_without_most_recent() {
    let loginusers = "\"users\" {
        \"111\" { \"AccountName\" \"a\" \"PersonaName\" \"A\" \"Timestamp\" \"500\" }
        \"222\" { \"AccountName\" \"b\" \"PersonaName\" \"B\" \"Timestamp\" \"700\" }
        \"333\" { \"AccountName\" \"c\" \"PersonaName\" \"C\" \"Timestamp\" \"700\" }
    }";
    let users = parse_login_users(loginusers).unwrap();
    assert_eq!(select_steam_user(&users), Some(1));
    assert_eq!(select_steam_user(&[]), None);
}

#[test]
fn steam_account_id_is_low_32_bits() {
    assert_eq!(steam_account_id("76561198059701474"), Some(99435746));
    assert_eq!(steam_account_id("not a number"), None);
    assert_eq!(steam_account_id("18446744073709551616"), None);
}

#[test]
fn app_manifest_is_read() {
    let acf = "// comment
\"AppState\"
{
	\"appid\"		\"4000\"
	\"StateFlags\"		\"4\"
	\"installdir\"		\"GarrysMod\"
	\"ScheduledAutoUpdate\"		\"0\"
	\"BytesToDownload\"		\"10\"
	\"BytesDownloaded\"		\"10\"
	\"MountedConfig\"
	{
		\"BetaKey\"		\"x86-64\"
	}
}
";
    let m = parse_app_manifest(acf).unwrap();
    assert_eq!(m.state_flags, 4);
    assert_eq!(m.install_dir, "GarrysMod");
    assert_eq!(m.bytes_to_download, 10);
    assert_eq!(m.bytes_staged, 0);
    assert_eq!(m.full_validate_before_next_update, None);
    assert_eq!(m.beta_key.as_deref(), Some("x86-64"));
}

#[test]
fn app_manifest_requires_mounted_config() {
    let acf = "\"AppState\" { \"StateFlags\" \"4\" \"installdir\" \"G\" \"ScheduledAutoUpdate\" \"0\" }";
    assert!(parse_app_manifest(acf).is_none());
    let acf = "\"AppState\" { \"StateFlags\" \"4294967296\" \"installdir\" \"G\" \"ScheduledAutoUpdate\" \"0\" \"MountedConfig\" {} }";
    assert!(parse_app_manifest(acf).is_none());
}

#[test]
fn compat_tool_mapping_is_read() {
    let config = "\"InstallConfigStore\" { \"Software\" { \"Valve\" { \"Steam\" { \"CompatToolMapping\" { \"4000\" { \"name\" \"Proton_9\" \"config\" \"\" } } } } } }";
    assert_eq!(parse_compat_tool(config, "4000"), Some(Some("Proton_9".to_string())));
    assert_eq!(parse_compat_tool(config, "730"), Some(None));
    let no_mapping = "\"InstallConfigStore\" { \"Software\" { \"Valve\" { \"Steam\" { } } } }";
    assert_eq!(parse_compat_tool(no_mapping, "4000"), Some(None));
    assert_eq!(parse_compat_tool("\"X\" { }", "4000"), None);
}

#[test]
fn localconfig_without_the_game() {
    let lc = "\"UserLocalConfigStore\" { \"Software\" { \"Valve\" { \"Steam\" { \"apps\" { \"10\" { } } } } } }";
    assert!(parse_local_app_config(lc, "4000").unwrap().is_none());
    let lc = "\"UserLocalConfigStore\" { \"Software\" { \"Valve\" { \"Steam\" { \"apps\" { \"4000\" { } } } } } }";
    assert!(parse_local_app_config(lc, "4000").unwrap().unwrap().launch_options.is_none());
}
