use simai::{Decimal, Div, Item, Key, Simai, Tap, TapStyle, Tick};

fn tap(key: Key) -> Item {
    Item::Tap(Tap { key, style: TapStyle::empty() })
}

#[test]
fn container_reads_known_and_unknown_keys() {
    let text = "&title=Song\n&artist= Someone \n&first=0.5\n&des_2=Me\n&lv_2=12+\n&inote_2=(120){4}\n1,2,\n||c\nE\n&wholebpm=120\n&wholebpm=130\n&other=x\n";
    let s = Simai::from_str(text).unwrap();
    assert_eq!(s.title().map(|v| v.as_str()), Some("Song"));
    assert_eq!(s.artist().map(|v| v.as_str()), Some("Someone"));
    assert_eq!(s.first().map(|v| v.as_str()), Some("0.5"));
    assert_eq!(s.designer(2).map(|v| v.as_str()), Some("Me"));
    assert_eq!(s.level(2).map(|v| v.as_str()), Some("12+"));
    assert_eq!(s.designer(1), None);
    let chart = s.chart(2).unwrap();
    assert!(chart.diagnostics.is_empty());
    assert_eq!(
        chart.items,
        vec![
            Item::Bpm(simai::Bpm(Decimal { text: "120".to_string() })),
            Item::Div(Div(4)),
            tap(Key::K1),
            Item::Tick(Tick(1)),
            tap(Key::K2),
            Item::Tick(Tick(1)),
            Item::End,
        ]
    );
    assert!(s.chart(1).is_none());
    assert_eq!(
        s.rest_cmds(),
        &vec![
            ("wholebpm".to_string(), "130".to_string()),
            ("other".to_string(), "x".to_string()),
        ]
    );
}

#[test]
fn container_handles_crlf_and_empty_values() {
    let text = "&title=A\r\n  continued  \r\n&first=\r\n&inote_1=   \r\n&lv_7=14";
    let s = Simai::from_str(text).unwrap();
    assert_eq!(s.title().map(|v| v.as_str()), Some("A\ncontinued"));
    assert_eq!(s.first(), None);
    assert!(s.chart(1).is_none());
    assert_eq!(s.level(7).map(|v| v.as_str()), Some("14"));
    assert!(s.rest_cmds().is_empty());
}

#[test]
fn container_of_empty_text() {
    let s = Simai::from_str("").unwrap();
    assert_eq!(s.title(), None);
    assert!(s.rest_cmds().is_empty());
    let s = Simai::new();
    assert_eq!(s.artist(), None);
}

#[test]
fn default_container_is_empty() {
    let s = Simai::default();
    assert_eq!(s.title(), None);
    assert!(s.chart(3).is_none());
    let c = Simai::from_str("&title=T").unwrap().clone();
    assert_eq!(c.title().map(|v| v.as_str()), Some("T"));
}

#[test]
fn container_parses_through_from_str_trait() {
    let s: Simai = "&artist=B\n&inote_1=1,||é".parse().unwrap();
    assert_eq!(s.artist().map(|v| v.as_str()), Some("B"));
    assert_eq!(s.chart(1).unwrap().items, vec![tap(Key::K1), Item::Tick(Tick(1))]);
}
