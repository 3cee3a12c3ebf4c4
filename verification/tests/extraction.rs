use ass2srt::dialogue::{get_ass_lines, parse_dialogue_line, DialogueEvent, ExtractError, LineError};

fn event(start: &str, end: &str, text: &str) -> DialogueEvent {
    DialogueEvent { start: start.to_string(), end: end.to_string(), text: text.to_string() }
}

fn readable(lines: &[&str]) -> Vec<Option<String>> {
    lines.iter().map(|line| Some(line.to_string())).collect()
}

#[test]
fn dialogue_line_gives_its_event() {
    let line = "Dialogue: 0,0:00:01.50,0:00:03.20,Default,,0,0,0,,Hello world";
    assert_eq!(
        parse_dialogue_line(line),
        Ok(Some(event("0:00:01,500", "0:00:03,200", "Hello world")))
    );
}

#[test]
fn commas_in_the_text_come_out_as_spaces() {
    let line = "Dialogue: 0,0:00:01.50,0:00:03.20,Default,,0,0,0,,Hello, world";
    assert_eq!(
        parse_dialogue_line(line),
        Ok(Some(event("0:00:01,500", "0:00:03,200", "Hello  world")))
    );
    let line = "Dialogue: 0,0:00:01.50,0:00:03.20,Default,,0,0,0,,a,b,,c,";
    assert_eq!(
        parse_dialogue_line(line),
        Ok(Some(event("0:00:01,500", "0:00:03,200", "a b  c ")))
    );
}

#[test]
fn fields_are_taken_by_position() {
    let line = "Dialogue,f1.1,f2.2,f3,f4,f5,f6,f7,f8,f9,f10";
    assert_eq!(parse_dialogue_line(line), Ok(Some(event("f1,10", "f2,20", "f9 f10"))));
}

#[test]
fn layer_in_a_field_of_its_own_shifts_the_times() {
    let line = "Dialogue,0,0:00:01.50,0:00:03.20,Default,,0,0,0,,Hello, world";
    assert_eq!(parse_dialogue_line(line), Err(LineError::MalformedStart));
}

#[test]
fn ten_fields_are_enough() {
    let line = "Dialogue: 0,0:00:01.50,0:00:03.20,Default,,0,0,0,,";
    assert_eq!(parse_dialogue_line(line), Ok(Some(event("0:00:01,500", "0:00:03,200", ""))));
    let line = "Dialogue: 0,0:00:01.50,0:00:03.20,Default,,0,0,0,,x";
    assert_eq!(parse_dialogue_line(line), Ok(Some(event("0:00:01,500", "0:00:03,200", "x"))));
}

#[test]
fn nine_fields_are_too_few() {
    let line = "Dialogue: 0,0:00:01.50,0:00:03.20,Default,,0,0,0,";
    assert_eq!(parse_dialogue_line(line), Err(LineError::MissingFields));
    assert_eq!(parse_dialogue_line("Dialogue"), Err(LineError::MissingFields));
    assert_eq!(parse_dialogue_line("Dialogue: 0,0:00:01.50"), Err(LineError::MissingFields));
}

#[test]
fn missing_fields_are_reported_before_bad_times() {
    let line = "Dialogue: 0,bad,worse,Default";
    assert_eq!(parse_dialogue_line(line), Err(LineError::MissingFields));
}

#[test]
fn bad_start_time_is_reported() {
    let line = "Dialogue: 0,0:00:01.xx,0:00:03.20,Default,,0,0,0,,Hello";
    assert_eq!(parse_dialogue_line(line), Err(LineError::MalformedStart));
    let line = "Dialogue: 0,0:00:01,0:00:03.20,Default,,0,0,0,,Hello";
    assert_eq!(parse_dialogue_line(line), Err(LineError::MalformedStart));
    let line = "Dialogue: 0,0:00:01.100,0:00:03.20,Default,,0,0,0,,Hello";
    assert_eq!(parse_dialogue_line(line), Err(LineError::MalformedStart));
}

#[test]
fn bad_end_time_is_reported() {
    let line = "Dialogue: 0,0:00:01.50,0:00:03.,Default,,0,0,0,,Hello";
    assert_eq!(parse_dialogue_line(line), Err(LineError::MalformedEnd));
    let line = "Dialogue: 0,0:00:01.50,,Default,,0,0,0,,Hello";
    assert_eq!(parse_dialogue_line(line), Err(LineError::MalformedEnd));
}

#[test]
fn bad_start_is_reported_before_bad_end() {
    let line = "Dialogue: 0,x,y,Default,,0,0,0,,Hello";
    assert_eq!(parse_dialogue_line(line), Err(LineError::MalformedStart));
}

#[test]
fn end_before_start_is_accepted() {
    let line = "Dialogue: 0,0:00:09.00,0:00:01.00,Default,,0,0,0,,Back";
    assert_eq!(parse_dialogue_line(line), Ok(Some(event("0:00:09,0", "0:00:01,0", "Back"))));
}

#[test]
fn other_lines_give_nothing() {
    assert_eq!(parse_dialogue_line(""), Ok(None));
    assert_eq!(parse_dialogue_line("[Events]"), Ok(None));
    assert_eq!(parse_dialogue_line("Format: Layer, Start, End, Style, Text"), Ok(None));
    assert_eq!(parse_dialogue_line("Dialogu"), Ok(None));
    assert_eq!(parse_dialogue_line("dialogue: 0,0:00:01.50,0:00:03.20,D,,0,0,0,,x"), Ok(None));
}

#[test]
fn tag_inside_a_line_gives_nothing() {
    let line = "Comment: Dialogue: 0,0:00:01.50,0:00:03.20,Default,,0,0,0,,Hello";
    assert_eq!(parse_dialogue_line(line), Ok(None));
    let line = " Dialogue: 0,0:00:01.50,0:00:03.20,Default,,0,0,0,,Hello";
    assert_eq!(parse_dialogue_line(line), Ok(None));
    assert_eq!(parse_dialogue_line("; Dialogue"), Ok(None));
    assert_eq!(get_ass_lines(&readable(&[line, "; Dialogue"])), Ok(vec![]));
}

#[test]
fn tag_at_the_start_and_inside_is_a_dialogue_line() {
    let line = "Dialogue: 0,0:00:01.50,0:00:03.20,Default,,0,0,0,,Dialogue";
    assert_eq!(
        parse_dialogue_line(line),
        Ok(Some(event("0:00:01,500", "0:00:03,200", "Dialogue")))
    );
}

#[test]
fn text_beyond_ascii_is_kept() {
    let line = "Dialogue: 0,0:00:01.50,0:00:03.20,Default,,0,0,0,,Grüße, 世界";
    assert_eq!(
        parse_dialogue_line(line),
        Ok(Some(event("0:00:01,500", "0:00:03,200", "Grüße  世界")))
    );
    let line = "Dialogue: é,0:00:01.50,0:00:03.20,Défaut,,0,0,0,,ok";
    assert_eq!(parse_dialogue_line(line), Ok(Some(event("0:00:01,500", "0:00:03,200", "ok"))));
}

#[test]
fn events_come_in_the_order_of_the_lines() {
    let lines = readable(&[
        "[Events]",
        "Dialogue: 0,0:00:05.00,0:00:06.00,Default,,0,0,0,,third in time",
        "Comment: 0,0:00:00.00,0:00:00.00,Default,,0,0,0,,note",
        "Dialogue: 0,0:00:01.10,0:00:02.20,Default,,0,0,0,,first in time",
        "",
        "Dialogue: 0,0:00:03.30,0:00:04.40,Default,,0,0,0,,second in time",
    ]);
    assert_eq!(
        get_ass_lines(&lines),
        Ok(vec![
            event("0:00:05,0", "0:00:06,0", "third in time"),
            event("0:00:01,100", "0:00:02,200", "first in time"),
            event("0:00:03,300", "0:00:04,400", "second in time"),
        ])
    );
}

#[test]
fn each_event_is_that_of_its_line() {
    let lines: Vec<String> = (0..40)
        .map(|i| {
            if i % 3 == 0 {
                format!("; remark {}", i)
            } else {
                format!("Dialogue: 0,0:00:{:02}.{:02},0:01:{:02}.00,D,,0,0,0,,line {}", i, i, i, i)
            }
        })
        .collect();
    let input: Vec<Option<String>> = lines.iter().cloned().map(Some).collect();
    let events = get_ass_lines(&input).unwrap();
    let dialogue: Vec<&String> = lines.iter().filter(|l| l.starts_with("Dialogue")).collect();
    assert_eq!(events.len(), dialogue.len());
    for (event, line) in events.iter().zip(dialogue) {
        assert_eq!(parse_dialogue_line(line), Ok(Some(event.clone())));
    }
}

#[test]
fn no_lines_give_no_events() {
    assert_eq!(get_ass_lines(&Vec::new()), Ok(vec![]));
    assert_eq!(get_ass_lines(&readable(&["[Script Info]", "Title: none"])), Ok(vec![]));
}

#[test]
fn unreadable_lines_are_passed_over() {
    let lines = vec![
        None,
        Some("Dialogue: 0,0:00:01.00,0:00:02.00,Default,,0,0,0,,one".to_string()),
        None,
        None,
        Some("Dialogue: 0,0:00:03.00,0:00:04.00,Default,,0,0,0,,two".to_string()),
    ];
    assert_eq!(
        get_ass_lines(&lines),
        Ok(vec![event("0:00:01,0", "0:00:02,0", "one"), event("0:00:03,0", "0:00:04,0", "two")])
    );
    assert_eq!(get_ass_lines(&vec![None, None]), Ok(vec![]));
}

#[test]
fn first_malformed_line_is_reported() {
    let lines = vec![
        Some("[Events]".to_string()),
        None,
        Some("Dialogue: 0,0:00:01.00,0:00:02.00,Default,,0,0,0,,fine".to_string()),
        Some("Dialogue: 0,0:00:01.00,0:00:02.zz,Default,,0,0,0,,bad end".to_string()),
        Some("Dialogue: too short".to_string()),
    ];
    assert_eq!(
        get_ass_lines(&lines),
        Err(ExtractError { line: 3, kind: LineError::MalformedEnd })
    );
}

#[test]
fn malformed_line_fails_whatever_follows() {
    let lines = readable(&[
        "Dialogue: short",
        "Dialogue: 0,0:00:01.00,0:00:02.00,Default,,0,0,0,,fine",
    ]);
    assert_eq!(
        get_ass_lines(&lines),
        Err(ExtractError { line: 0, kind: LineError::MissingFields })
    );
    let lines = readable(&[
        "Dialogue: 0,0:00:01.00,0:00:02.00,Default,,0,0,0,,fine",
        "Dialogue: 0,0:00:01,0:00:02.00,Default,,0,0,0,,no fraction",
    ]);
    assert_eq!(
        get_ass_lines(&lines),
        Err(ExtractError { line: 1, kind: LineError::MalformedStart })
    );
}

#[test]
fn cloned_event_equals_the_first() {
    let first = event("0:00:01,500", "0:00:03,200", "Hello");
    let second = first.clone();
    assert_eq!(first, second);
    assert_ne!(first, event("0:00:01,500", "0:00:03,200", "hello"));
}
