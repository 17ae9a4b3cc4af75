use oxideav_pdf::layout::{LayoutMode, ReadingOrderText, TextRenderMode, TextRun};
use oxideav_pdf::number::Number;

#[test]
fn flat_text_joins_runs_with_spaces() {
    let r = ReadingOrderText {
        mode: LayoutMode::Tagged,
        runs: vec![
            TextRun {
                text: "Hello".into(),
                position: (Number::Integer(0), Number::Integer(0)),
                font_name: "F0".into(),
                font_size: Number::Integer(12),
                render_mode: TextRenderMode::Fill,
                text_rise: Number::Integer(0),
            },
            TextRun {
                text: "World".into(),
                position: (Number::Integer(40), Number::Integer(0)),
                font_name: "F0".into(),
                font_size: Number::Integer(12),
                render_mode: TextRenderMode::Fill,
                text_rise: Number::Integer(0),
            },
        ],
    };
    assert_eq!(r.flat_text(), "Hello World");
}
