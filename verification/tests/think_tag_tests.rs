use acowork_runtime::providers::think_tag::{partial_tag_suffix, ThinkPiece, ThinkTagParser};

fn is_content(p: &ThinkPiece, s: &str) -> bool {
    matches!(p, ThinkPiece::Content(t) if t == s)
}

fn is_reasoning(p: &ThinkPiece, s: &str) -> bool {
    matches!(p, ThinkPiece::Reasoning(t) if t == s)
}

#[test]
fn test_no_tags() {
    let mut p = ThinkTagParser::new();
    let events = p.feed("Hello, world!");
    assert_eq!(events.len(), 1);
    assert!(is_content(&events[0], "Hello, world!"));
}

#[test]
fn test_complete_think_block() {
    let mut p = ThinkTagParser::new();
    let events = p.feed("before<!think>inner contentwillReturnafter");
    assert_eq!(events.len(), 3);
    assert!(is_content(&events[0], "before"));
    assert!(is_reasoning(&events[1], "inner content"));
    assert!(is_content(&events[2], "after"));
}

#[test]
fn test_think_spanning_chunks() {
    let mut p = ThinkTagParser::new();
    let events1 = p.feed("Hello<!thi");
    assert_eq!(events1.len(), 1);
    assert!(is_content(&events1[0], "Hello"));

    let events2 = p.feed("nk>thinking...willReturnreply");
    assert_eq!(events2.len(), 2);
    assert!(is_reasoning(&events2[0], "thinking..."));
    assert!(is_content(&events2[1], "reply"));
}

#[test]
fn test_close_tag_spanning_chunks() {
    let mut p = ThinkTagParser::new();
    let events1 = p.feed("<!think>some thinkingwillRet");
    assert_eq!(events1.len(), 1);
    assert!(is_reasoning(&events1[0], "some thinking"));

    let events2 = p.feed("urn>reply text");
    assert_eq!(events2.len(), 1);
    assert!(is_content(&events2[0], ">reply text"));
}

#[test]
fn test_flush_inside_think() {
    let mut p = ThinkTagParser::new();
    let events = p.feed("<!think>unfinished thinking");
    assert_eq!(events.len(), 1);
    assert!(is_reasoning(&events[0], "unfinished thinking"));
    let flushed = p.flush();
    assert_eq!(flushed.len(), 0);
}

#[test]
fn test_flush_outside_think() {
    let mut p = ThinkTagParser::new();
    let events = p.feed("<!think>done thinkingwillReturnremaining text");
    assert_eq!(events.len(), 2);
    assert!(is_reasoning(&events[0], "done thinking"));
    assert!(is_content(&events[1], "remaining text"));
    let flushed = p.flush();
    assert_eq!(flushed.len(), 0);
}

#[test]
fn test_tag_in_user_discussion() {
    let mut p = ThinkTagParser::new();
    let events = p.feed("I saw a <!think> tag in the code");
    assert_eq!(events.len(), 2);
    assert!(is_content(&events[0], "I saw a "));
    assert!(is_reasoning(&events[1], " tag in the code"));
}

#[test]
fn test_standard_complete_think_block() {
    let mut p = ThinkTagParser::new();
    let events = p.feed("before<think>inner content</think>after");
    assert_eq!(events.len(), 3);
    assert!(is_content(&events[0], "before"));
    assert!(is_reasoning(&events[1], "inner content"));
    assert!(is_content(&events[2], "after"));
}

#[test]
fn test_standard_think_spanning_chunks() {
    let mut p = ThinkTagParser::new();
    let events1 = p.feed("Hello<thi");
    assert_eq!(events1.len(), 1);
    assert!(is_content(&events1[0], "Hello"));

    let events2 = p.feed("nk>thinking...</thin");
    assert_eq!(events2.len(), 1);
    assert!(is_reasoning(&events2[0], "thinking..."));

    let events3 = p.feed("k>reply text");
    assert_eq!(events3.len(), 1);
    assert!(is_content(&events3[0], "reply text"));
}

#[test]
fn test_standard_flush_inside_think() {
    let mut p = ThinkTagParser::new();
    let events = p.feed("<think>unfinished thinking");
    assert_eq!(events.len(), 1);
    assert!(is_reasoning(&events[0], "unfinished thinking"));
    let flushed = p.flush();
    assert_eq!(flushed.len(), 0);
}

#[test]
fn test_standard_and_minimax_interleaved() {
    let mut p = ThinkTagParser::new();
    let events1 = p.feed("A<think>think A</think>B");
    assert_eq!(events1.len(), 3);
    assert!(is_content(&events1[0], "A"));
    assert!(is_reasoning(&events1[1], "think A"));
    assert!(is_content(&events1[2], "B"));

    let events2 = p.feed("C<!think>think DwillReturnE");
    assert_eq!(events2.len(), 3);
    assert!(is_content(&events2[0], "C"));
    assert!(is_reasoning(&events2[1], "think D"));
    assert!(is_content(&events2[2], "E"));
}

#[test]
fn part_of_a_tag_is_kept_back_and_flushed() {
    assert_eq!(partial_tag_suffix("abc<th", "<think>"), 3);
    assert_eq!(partial_tag_suffix("abc", "<think>"), 0);
    let mut p = ThinkTagParser::new();
    let events = p.feed("x<thi");
    assert_eq!(events.len(), 1);
    let flushed = p.flush();
    assert_eq!(flushed.len(), 1);
    assert!(is_content(&flushed[0], "<thi"));
}

#[test]
fn chunks_give_the_same_text_as_the_whole() {
    let whole = "a<think>b</think>c<!think>dwillReturne";
    let mut at_once = ThinkTagParser::new();
    let mut pieces: Vec<ThinkPiece> = at_once.feed(whole);
    pieces.extend(at_once.flush());
    let mut one_by_one = ThinkTagParser::new();
    let mut content = String::new();
    let mut reasoning = String::new();
    for c in whole.chars() {
        for p in one_by_one.feed(&c.to_string()) {
            match p {
                ThinkPiece::Content(t) => content.push_str(&t),
                ThinkPiece::Reasoning(t) => reasoning.push_str(&t),
            }
        }
    }
    for p in one_by_one.flush() {
        match p {
            ThinkPiece::Content(t) => content.push_str(&t),
            ThinkPiece::Reasoning(t) => reasoning.push_str(&t),
        }
    }
    assert_eq!(content, "ace");
    assert_eq!(reasoning, "bd");
    assert_eq!(pieces.len(), 5);
}
