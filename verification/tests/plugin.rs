use ipdetect::drawing::{
    item_draw_item, item_get_width_ex, item_width, text_format, Action, Event, Session,
};
use ipdetect::plugin::{
    item_is_custom_draw, latest_text, normalizeFontOrientation, plugin_get_info, plugin_get_item,
    read_latest_text, without_nul, FontDescription, FontStyle, Plugin, PluginItem, ITEM_LABEL,
    ITEM_SAMPLE,
};

/// The item draws itself, so that the host does not put label and value on two lines.
#[test]
#[allow(non_snake_case)]
fn pluginItemUsesCustomSingleLineDrawing() {
    assert!(item_is_custom_draw());
    assert_eq!(ITEM_LABEL, "");
    assert_eq!(ITEM_SAMPLE, "出口IP  JP  255.255.255.255");

    let item = PluginItem::new();
    let initial_text = String::from_utf16(&item.value_w[..item.value_w.len() - 1]).unwrap();
    assert_eq!(initial_text, "出口IP  …");
}

/// The font of the item is set upright.
#[test]
#[allow(non_snake_case)]
fn horizontalFontClearsRotation() {
    let mut font = FontDescription {
        escapement: 900,
        orientation: 900,
        ..Default::default()
    };

    normalizeFontOrientation(&mut font);

    assert_eq!(font.escapement, 0);
    assert_eq!(font.orientation, 0);
}

/// The mark of a vertical face is taken off.
#[test]
#[allow(non_snake_case)]
fn horizontalFontRemovesVerticalFacePrefix() {
    let mut font = FontDescription::default();
    let vertical_face: Vec<u16> = "@Microsoft YaHei UI".encode_utf16().collect();
    font.face_name[..vertical_face.len()].copy_from_slice(&vertical_face);

    normalizeFontOrientation(&mut font);

    let face_length = font
        .face_name
        .iter()
        .position(|character| *character == 0)
        .unwrap_or(font.face_name.len());
    let normalized_face = String::from_utf16(&font.face_name[..face_length]).unwrap();
    assert_eq!(normalized_face, "Microsoft YaHei UI");
}

fn upright_font() -> FontDescription {
    FontDescription {
        escapement: 0,
        orientation: 0,
        face_name: [0x41; 32],
        style: FontStyle {
            height: -12,
            weight: 700,
            quality: 5,
            ..Default::default()
        },
    }
}

#[test]
fn upright_face_is_left_as_it_is() {
    let mut font = upright_font();
    normalizeFontOrientation(&mut font);
    assert_eq!(font.face_name, [0x41; 32]);
    font.face_name[0] = 0x40;
    normalizeFontOrientation(&mut font);
    let mut expected: [u16; 32] = [0x41; 32];
    expected[31] = 0;
    assert_eq!(font.face_name, expected);
    let once = font.face_name;
    normalizeFontOrientation(&mut font);
    assert_eq!(font.face_name, once);
}

fn shown(item: &PluginItem) -> String {
    String::from_utf16(without_nul(&item.value_w)).unwrap()
}

#[test]
fn item_shows_the_published_text() {
    let mut item = PluginItem::new();
    assert_eq!(latest_text(), "…");
    item.refresh_value(&read_latest_text(Some("JP  43.251.186.2")));
    assert_eq!(shown(&item), "出口IP  JP  43.251.186.2");
    assert_eq!(item.value_w.last(), Some(&0));
    item.refresh_value(&read_latest_text(None));
    assert_eq!(shown(&item), "出口IP  —");
    assert_eq!(item.id_w, PluginItem::new().id_w);
    assert!(without_nul(&vec![]).is_empty());
}

#[test]
fn plugin_describes_itself() {
    let plugin = Plugin::new();
    let text = |index: i32| {
        plugin_get_info(&plugin.info, index).map(|units| {
            String::from_utf16(without_nul(units)).unwrap()
        })
    };
    assert_eq!(text(0), Some("OutIpDetect".to_string()));
    assert_eq!(text(1), Some("显示当前经代理出口的IP与国家/地区代码".to_string()));
    assert_eq!(text(2), Some("LSvalbar".to_string()));
    assert_eq!(text(3), Some("Copyright (C) 2026 LSvalbar".to_string()));
    assert_eq!(text(4), Some("0.1.0".to_string()));
    assert_eq!(
        text(5),
        Some("https://github.com/LSvalbar/OutIpDetect".to_string())
    );
    assert_eq!(text(6), None);
    assert_eq!(text(-1), None);
    assert!(plugin_get_item(0));
    assert!(!plugin_get_item(1));
    assert!(!plugin_get_item(-1));
}

fn follow(mut session: Session, events: Vec<Event>) -> (Vec<String>, Option<i32>) {
    let mut calls: Vec<String> = Vec::new();
    for event in events {
        calls.push(name(&session.action()));
        session = session.advance(event);
    }
    match session.action() {
        Action::Finish(extent) => (calls, extent),
        action => panic!("the session goes on with {:?}", action),
    }
}

fn name(action: &Action) -> String {
    match action {
        Action::CreateFont(_) => "CreateFont".to_string(),
        Action::DrawText { rect, format } => {
            assert_eq!(*format, text_format());
            format!(
                "DrawText {} {} {} {}",
                rect.left, rect.top, rect.right, rect.bottom
            )
        }
        other => format!("{:?}", other),
    }
}

#[test]
fn drawing_restores_the_device_context() {
    let session = item_draw_item(true, true, 10, 20, 100, 30).unwrap();
    let (calls, extent) = follow(
        session,
        vec![
            Event::CurrentFont(true),
            Event::Description(Some(upright_font())),
            Event::Created(true),
            Event::Selected(true),
            Event::Background(2),
            Event::Rendered(None),
            Event::Returned,
            Event::Returned,
            Event::Returned,
        ],
    );
    assert_eq!(
        calls,
        vec![
            "GetCurrentFont",
            "DescribeFont",
            "CreateFont",
            "SelectFont",
            "SetTransparent",
            "DrawText 14 20 106 50",
            "SetBackground(2)",
            "SelectPrevious",
            "DeleteFont",
        ]
    );
    assert_eq!(extent, None);
}

#[test]
fn drawing_goes_on_without_a_font_of_its_own() {
    let session = item_draw_item(true, true, 0, 0, 8, 1).unwrap();
    let without_font = vec!["GetCurrentFont", "SetTransparent", "DrawText 4 0 4 1"];
    let (calls, _) = follow(
        session,
        vec![
            Event::CurrentFont(false),
            Event::Background(0),
            Event::Rendered(None),
        ],
    );
    assert_eq!(calls, without_font);
    let (calls, _) = follow(
        session,
        vec![
            Event::CurrentFont(true),
            Event::Description(None),
            Event::Background(1),
            Event::Rendered(None),
            Event::Returned,
        ],
    );
    assert_eq!(calls.last().unwrap(), "SetBackground(1)");
    let (calls, _) = follow(
        session,
        vec![
            Event::CurrentFont(true),
            Event::Description(Some(upright_font())),
            Event::Created(true),
            Event::Selected(false),
            Event::Returned,
            Event::Background(0),
            Event::Rendered(None),
        ],
    );
    assert_eq!(calls[4], "DeleteFont");
    assert_eq!(calls.len(), 7);
}

#[test]
fn created_font_is_upright() {
    let session = item_get_width_ex(true, true)
        .unwrap()
        .advance(Event::CurrentFont(true));
    let mut font = upright_font();
    font.escapement = 900;
    font.face_name[0] = 0x40;
    match session.advance(Event::Description(Some(font))).action() {
        Action::CreateFont(created) => {
            assert_eq!(created.escapement, 0);
            assert_eq!(created.face_name[0], 0x41);
            assert_eq!(created.face_name[31], 0);
            assert_eq!(created.style, font.style);
        }
        action => panic!("unexpected: {:?}", action),
    }
}

#[test]
fn measuring_gives_the_width() {
    let session = item_get_width_ex(true, true).unwrap();
    let (calls, extent) = follow(
        session,
        vec![
            Event::CurrentFont(true),
            Event::Description(Some(upright_font())),
            Event::Created(true),
            Event::Selected(true),
            Event::Rendered(Some(120)),
            Event::Returned,
            Event::Returned,
        ],
    );
    assert_eq!(calls[4], "MeasureText");
    assert_eq!(item_width(extent), 128);
    let (_, extent) = follow(
        session,
        vec![
            Event::CurrentFont(true),
            Event::Description(Some(upright_font())),
            Event::Created(false),
            Event::Rendered(None),
        ],
    );
    assert_eq!(item_width(extent), 190);
}

#[test]
fn sessions_work_on_the_texts_of_the_item() {
    let mut item = PluginItem::new();
    item.refresh_value("JP  1.2.3.4");
    let draw = item_draw_item(true, true, 0, 0, 1, 1).unwrap();
    let text = String::from_utf16(draw.text(&item)).unwrap();
    assert_eq!(text, "出口IP  JP  1.2.3.4");
    let measure = item_get_width_ex(true, true).unwrap();
    let text = String::from_utf16(measure.text(&item)).unwrap();
    assert_eq!(text, ITEM_SAMPLE);
}

#[test]
fn text_is_drawn_on_one_line() {
    let format = windows::Win32::Graphics::Gdi::DT_LEFT
        | windows::Win32::Graphics::Gdi::DT_VCENTER
        | windows::Win32::Graphics::Gdi::DT_SINGLELINE
        | windows::Win32::Graphics::Gdi::DT_NOPREFIX
        | windows::Win32::Graphics::Gdi::DT_END_ELLIPSIS;
    assert_eq!(text_format(), format.0);
}

#[test]
fn nothing_is_drawn_without_a_place() {
    assert!(item_draw_item(false, true, 0, 0, 1, 1).is_none());
    assert!(item_draw_item(true, false, 0, 0, 1, 1).is_none());
    assert!(item_draw_item(true, true, i32::MAX, 0, 0, 1).is_none());
    assert!(item_draw_item(true, true, 0, 0, 1, -1).is_none());
    assert!(item_get_width_ex(false, true).is_none());
    assert!(item_get_width_ex(true, false).is_none());
}

#[test]
fn other_events_change_nothing() {
    let session = item_get_width_ex(true, true).unwrap();
    let same = session.advance(Event::Returned).advance(Event::Created(true));
    assert_eq!(name(&same.action()), "GetCurrentFont");
}
