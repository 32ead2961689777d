use gameserver::description::{parse, Dict, ParameterValue};
use gameserver::lexer::{Cursor, Lexeme};
use gameserver::version::Version;

fn words(text: &str) -> Vec<String> {
    let mut c = Cursor::new(text);
    let mut out = Vec::new();
    loop {
        let l = c.next().unwrap();
        let done = matches!(l, Lexeme::EOF);
        out.push(l.print());
        if done {
            return out;
        }
    }
}

#[test]
fn lexer_reads_all_kinds() {
    assert_eq!(
        words("a = \"b c\", [x: 1.5]\n{'q'} // note\n/* block\n */ z"),
        vec!["\"a\"", "'='", "\"b c\"", "','", "[", "\"x\"", "':'", "\"1.5\"", "]", "'new line'", "{", "\"q\"", "}", "'new line'", "\"z\"", "EOF"]
    );
}

#[test]
fn lexer_counts_lines() {
    let mut c = Cursor::new("a\n\nb");
    c.next().unwrap();
    assert_eq!(c.line, 1);
    c.next().unwrap();
    c.next().unwrap();
    let l = c.next().unwrap();
    assert!(matches!(l, Lexeme::String(ref s) if s == "b"));
    assert_eq!(c.line, 3);
    assert_eq!(c.printLine(), "Line: 3 ; b \n");
}

#[test]
fn lexer_errors() {
    assert!(Cursor::new("\"open").next().is_err());
    assert!(Cursor::new("/x").next().is_err());
    assert!(Cursor::new("/* never").next().is_err());
    assert!(Cursor::new("/* a * b */").next().is_err());
    assert!(Cursor::new("#").next().is_err());
    assert!(Cursor::new("// to the end").next().unwrap().print() == "EOF");
}

fn root(text: &str) -> Result<Dict, String> {
    parse(text, |d| Ok(d))
}

#[test]
fn description_nested_values() {
    let d = root("name = \"x\"\nlist = [a, {k = v}, [b]]\nmap = { inner: 7 }\n").unwrap();
    assert_eq!(d.getString("name").unwrap(), "x");
    let l = d.getList("list").unwrap();
    let items: Vec<&ParameterValue> = l.iter().collect();
    assert_eq!(items.len(), 3);
    assert_eq!(items[0].getString().unwrap(), "a");
    assert_eq!(items[1].getMap().unwrap().getString("k").unwrap(), "v");
    assert_eq!(items[2].getList().unwrap().elements.len(), 1);
    let m = d.getMap("map").unwrap();
    assert_eq!(m.getStringAs("inner").unwrap(), 7);
}

#[test]
fn description_errors() {
    assert!(root("a = b\na = c").is_err());
    assert!(root("a b").is_err());
    assert!(root("a =").is_err());
    assert!(root("m = { a = b").is_err());
    assert!(root("l = [a b]").is_err());
    assert!(root("= b").is_err());
}

#[test]
fn description_getters_report_wrong_kind_and_absence() {
    let d = root("s = x\nl = [y]").unwrap();
    assert!(d.getMap("s").is_err());
    assert!(d.getList("s").is_err());
    assert!(d.getString("l").is_err());
    assert!(d.getString("missing").is_err());
    assert_eq!(d.getString("missing").unwrap_err(), "Line 0 : Map has no parameter \"missing\"");
    assert!(d.getStringAs("s").is_err());
}

#[test]
fn description_numbers() {
    let d = root("a = \"+12\"\nb = 18446744073709551616\nc = \"-1\"\ne = \"\"").unwrap();
    assert_eq!(d.getStringAs("a").unwrap(), 12);
    assert!(d.getStringAs("b").is_err());
    assert!(d.getStringAs("c").is_err());
    assert!(d.getStringAs("e").is_err());
}

#[test]
fn version_parse_and_order() {
    let a = Version::parse(&"1.2.3.4".to_string()).unwrap();
    let b = Version::parse(&"1.2.10.0".to_string()).unwrap();
    assert_eq!(a.print(), "1.2.3.4");
    assert_eq!(a.versionHash, 0x01020304);
    assert!(a < b);
    assert!(a == Version::parse(&"1.2.3.4".to_string()).unwrap());
}

#[test]
fn version_errors() {
    assert!(Version::parse(&"1.2.3".to_string()).is_err());
    assert!(Version::parse(&"1.2.3.4.5".to_string()).is_err());
    assert!(Version::parse(&"1.2.3.256".to_string()).is_err());
    assert!(Version::parse(&"1.2.x.4".to_string()).is_err());
    assert!(Version::parse(&"".to_string()).is_err());
}
