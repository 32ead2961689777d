use gameserver::config::{getLine, parse, Lexeme, TextCursor};
use gameserver::description::Dict;
use gameserver::http::readAnswer;
use gameserver::mod_loader::{selectModulesToLoad, Mod, ModDescription};
use gameserver::server_config::ServerConfig;

fn root(text: &str) -> Result<Dict, String> {
    parse(&text.to_string(), |d| Ok(d))
}

const SETTINGS: &str = "\"server.adminPort\" = \"1940\"\n\"server.gamePort\" = \"1941\"\n\"server.editorPort\" = \"1942\"\n\"server.address\" = \"127.0.0.1\"\n\"server.connectionsLimit\" = \"100\"\n\"server.playersLimit\" = \"50\"\n\"repositories\" = [\"a\", \"b\"]\n\"load map\" = \"\"\n\"generate map\" = \"map1\"\n";

#[test]
fn config_lexemes_and_escapes() {
    let text = "'a': \"x\\\"y\\n\" // comment\n".to_string();
    let mut cur = TextCursor::new(&text);
    let mut kinds = Vec::new();
    loop {
        let l = Lexeme::next(&mut cur).unwrap();
        let done = matches!(l, Lexeme::EOF);
        kinds.push(match l {
            Lexeme::EOF => "eof".to_string(),
            Lexeme::String(s) => s,
            Lexeme::Assign => "=".to_string(),
            Lexeme::Comma => ",".to_string(),
            Lexeme::NewLine => "nl".to_string(),
            Lexeme::Bracket(c) => c.to_string(),
        });
        if done {
            break;
        }
    }
    assert_eq!(kinds, vec!["a", "=", "x\"y\n", "nl", "eof"]);
}

#[test]
fn config_requires_quotes() {
    assert!(root("\"a\" = b").is_err());
    assert!(root("\"a\" = \"b").is_err());
    assert!(root("\"a\" = \"b\" / c").is_err());
}

#[test]
fn config_nested_values_and_lines() {
    let d = root("\"m\" = {\n  \"k\" = \"v\" }\n\"l\" = [\"x\", {\"a\" = \"b\"}]\n").unwrap();
    let m = d.getMap("m").unwrap();
    assert_eq!(m.line, 1);
    assert_eq!(m.getString("k").unwrap(), "v");
    let l = d.getList("l").unwrap();
    assert_eq!(l.elements.len(), 2);
    assert_eq!(l.elements[1].getMap().unwrap().getString("a").unwrap(), "b");
    assert!(root("\"a\" = \"1\"\n\"a\" = \"2\"").is_err());
}

#[test]
fn config_line_text() {
    let t = "first\nsecond line\nthird".to_string();
    assert_eq!(getLine(&t, 6), "second line");
    assert_eq!(getLine(&t, 100), "");
}

#[test]
fn server_settings_are_read() {
    let c = ServerConfig::read(&SETTINGS.to_string()).unwrap();
    assert_eq!(c.server_adminPort, 1940);
    assert_eq!(c.server_gamePort, 1941);
    assert_eq!(c.server_editorPort, 1942);
    assert_eq!(c.server_address, "127.0.0.1");
    assert_eq!(c.server_connectionsLimit, 100);
    assert_eq!(c.server_playersLimit, 50);
    assert_eq!(c.repositories, vec!["a".to_string(), "b".to_string()]);
    assert_eq!(c.loadMap, "");
    assert_eq!(c.generateMap, "map1");
}

#[test]
fn server_settings_limits() {
    let too_many = SETTINGS.replace("\"100\"", "\"1500\"");
    assert!(ServerConfig::read(&too_many).is_err());
    let too_many_players = SETTINGS.replace("\"50\"", "\"1000\"");
    assert!(ServerConfig::read(&too_many_players).is_err());
    let bad_port = SETTINGS.replace("\"1940\"", "\"70000\"");
    assert!(ServerConfig::read(&bad_port).is_err());
    let missing = SETTINGS.replace("\"generate map\"", "\"other\"");
    assert!(ServerConfig::read(&missing).is_err());
}

fn description(name: &str, version: &str, deps: &str) -> String {
    format!(
        "\"name\" = \"{}\"\n\"version\" = \"{}\"\n\"game version\" = \"0.1.0.0\"\n\"description\" = \"d\"\n\"dependencies\" = [{}]\n",
        name, version, deps
    )
}

#[test]
fn mod_description_is_read() {
    let d = ModDescription::read(&description("core", "1.0.0.0", "\"base-0.5.0.0\"")).unwrap();
    assert_eq!(d.name, "core");
    assert_eq!(d.version.print(), "1.0.0.0");
    assert_eq!(d.dependencies.len(), 1);
    assert_eq!(d.dependencies[0].0, "base");
    assert_eq!(d.dependencies[0].1.print(), "0.5.0.0");
    assert!(ModDescription::read(&description("core", "1.0.0.0", "\"base\"")).is_err());
    assert!(ModDescription::read(&description("core", "1.0", "")).is_err());
}

#[test]
fn mod_package_name_must_match() {
    let text = description("core", "1.0.0.0", "");
    assert!(Mod::readInstalledModDescription("core.zip".to_string(), &text).is_ok());
    assert!(Mod::readInstalledModDescription("other.zip".to_string(), &text).is_err());
}

#[test]
fn mods_are_selected_with_dependencies() {
    let installed = vec![
        Mod::readInstalledModDescription("core.zip".to_string(), &description("core", "1.0.0.0", "\"base-0.5.0.0\"")).unwrap(),
        Mod::readInstalledModDescription("base.zip".to_string(), &description("base", "0.6.0.0", "")).unwrap(),
        Mod::readInstalledModDescription("extra".to_string(), &description("extra", "1.0.0.0", "")).unwrap(),
    ];
    let files = selectModulesToLoad(&installed, &"\"active mods\" = [\"core\"]".to_string()).unwrap();
    assert_eq!(files, vec!["core.zip".to_string(), "base.zip".to_string()]);
    assert!(selectModulesToLoad(&installed, &"\"active mods\" = [\"missing\"]".to_string()).is_err());
    let old = vec![
        Mod::readInstalledModDescription("core.zip".to_string(), &description("core", "1.0.0.0", "\"base-0.7.0.0\"")).unwrap(),
        Mod::readInstalledModDescription("base.zip".to_string(), &description("base", "0.6.0.0", "")).unwrap(),
    ];
    assert!(selectModulesToLoad(&old, &"\"active mods\" = [\"core\"]".to_string()).is_err());
}

#[test]
fn http_answer_with_body() {
    let answer = b"HTTP/1.1 200 OK\r\nContent-Length: 5\r\nX: y\r\n\r\nhello";
    let (code, body) = readAnswer(answer).unwrap();
    assert_eq!(code, 200);
    assert_eq!(body, b"hello".to_vec());
}

#[test]
fn http_answer_incomplete_and_empty() {
    assert!(readAnswer(b"HTTP/1.1 200 OK\r\nContent-Length: 5\r\n\r\nhel").is_none());
    assert!(readAnswer(b"HTTP/1.1 404 Not Found\r\n").is_none());
    let (code, body) = readAnswer(b"HTTP/1.1 404 Not Found\r\n\r\n").unwrap();
    assert_eq!(code, 404);
    assert!(body.is_empty());
}
