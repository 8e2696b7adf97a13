use env_monitor::ui::{
    format_header_clock, pressure_bar, row_layout, row_top, scaled_block, sparkline_inner,
    sparkline_x, sparkline_y, wifi_arc, wifi_icon_shown, Dashboard, History, IconKind, Point, Rect,
    WifiLink, HISTORY_LEN,
};

#[test]
fn history_keeps_readings_in_order() {
    let mut h = History::new(0i32);
    assert_eq!(h.len(), 0);
    h.push(1);
    h.push(2);
    h.push(3);
    assert_eq!(h.values_in_order(), vec![1, 2, 3]);
}

#[test]
fn full_history_drops_the_oldest() {
    let mut h = History::new(0i32);
    for v in 0..65 {
        h.push(v);
    }
    assert_eq!(h.len(), HISTORY_LEN);
    assert_eq!(h.values_in_order(), (5..65).collect::<Vec<i32>>());
}

#[test]
fn dashboard_records_each_quantity() {
    let mut d = Dashboard::new(0u16);
    d.update(21, 40, 1013);
    d.update(22, 41, 1012);
    assert_eq!(d.temp_history.values_in_order(), vec![21, 22]);
    assert_eq!(d.humidity_history.values_in_order(), vec![40, 41]);
    assert_eq!(d.pressure_history.values_in_order(), vec![1013, 1012]);
}

#[test]
fn rows_below_the_header() {
    assert_eq!((row_top(0), row_top(1), row_top(2)), (24, 96, 168));
    let l = row_layout(24, IconKind::Thermometer);
    assert_eq!(l.icon, Point { x: 6, y: 48 });
    assert_eq!(l.number, Point { x: 54, y: 50 });
    assert_eq!(l.graph, Rect { x: 198, y: 32, width: 116, height: 56 });
    assert_eq!(row_layout(96, IconKind::Droplet).icon, Point { x: 6, y: 122 });
    assert_eq!(row_layout(168, IconKind::Pressure).icon, Point { x: 6, y: 202 });
}

#[test]
fn sparkline_area_is_inset() {
    let inner = sparkline_inner(Rect { x: 198, y: 32, width: 116, height: 56 });
    assert_eq!(inner, Rect { x: 200, y: 34, width: 112, height: 52 });
    let tiny = sparkline_inner(Rect { x: 0, y: 0, width: 3, height: 2 });
    assert_eq!(tiny, Rect { x: 2, y: 2, width: 0, height: 0 });
}

#[test]
fn sparkline_points_span_the_width() {
    let inner = Rect { x: 200, y: 34, width: 112, height: 52 };
    assert_eq!(sparkline_x(inner, 0, 60), 200);
    assert_eq!(sparkline_x(inner, 59, 60), 312);
    assert_eq!(sparkline_x(inner, 30, 60), 200 + 30 * 112 / 59);
    assert_eq!(sparkline_x(inner, 0, 1), 200);
}

#[test]
fn sparkline_width_beyond_i32_wraps_negative() {
    let inner = Rect { x: 200, y: 0, width: 0xFFFF_FFF0, height: 0 };
    assert_eq!(sparkline_x(inner, 3, 5), 188);
}

#[test]
fn sparkline_points_stay_in_the_area() {
    let inner = Rect { x: 200, y: 34, width: 112, height: 52 };
    assert_eq!(sparkline_y(inner, 0), 60);
    assert_eq!(sparkline_y(inner, 10), 50);
    assert_eq!(sparkline_y(inner, 1000), 34);
    assert_eq!(sparkline_y(inner, -1000), 86);
}

#[test]
fn header_clock_of_uptime() {
    assert_eq!(format_header_clock(0), b"00:00".to_vec());
    assert_eq!(format_header_clock(3661), b"01:01".to_vec());
    assert_eq!(format_header_clock(99 * 3600 + 59 * 60 + 59), b"99:59".to_vec());
    assert_eq!(format_header_clock(100 * 3600 + 120), b"00:02".to_vec());
}

#[test]
fn scaled_text_pixels_become_blocks() {
    let r = scaled_block(Point { x: 54, y: 50 }, Point { x: 3, y: -2 }, 2);
    assert_eq!(r, Rect { x: 60, y: 46, width: 2, height: 2 });
}

#[test]
fn pressure_icon_bars() {
    let o = Point { x: 6, y: 202 };
    assert_eq!(pressure_bar(o, 0), (Point { x: 6, y: 202 }, Point { x: 30, y: 202 }));
    assert_eq!(pressure_bar(o, 1), (Point { x: 9, y: 212 }, Point { x: 27, y: 212 }));
    assert_eq!(pressure_bar(o, 2), (Point { x: 12, y: 222 }, Point { x: 24, y: 222 }));
}

#[test]
fn wifi_icon_arcs() {
    let o = Point { x: 292, y: 2 };
    assert_eq!(wifi_arc(o, 0), (Point { x: 298, y: 14 }, 6));
    assert_eq!(wifi_arc(o, 1), (Point { x: 295, y: 6 }, 12));
    assert_eq!(wifi_arc(o, 2), (Point { x: 292, y: -2 }, 18));
}

#[test]
fn wifi_icon_blinks_while_connecting() {
    assert!(wifi_icon_shown(WifiLink::Connected, 0));
    assert!(wifi_icon_shown(WifiLink::Connected, 7));
    assert!(wifi_icon_shown(WifiLink::Connecting, 4));
    assert!(!wifi_icon_shown(WifiLink::Connecting, 5));
    assert!(!wifi_icon_shown(WifiLink::Off, 0));
}
