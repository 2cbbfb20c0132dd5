use brainfuck::ast::{File, Repeated, Segment, Token, TokenExt, Tokens};

fn rep(token: Token, count: usize) -> Repeated {
    Repeated { token, count }
}

fn expand(tokens: &[Repeated]) -> Vec<Token> {
    let mut out: Vec<Token> = Vec::new();
    for t in tokens {
        for _ in 0..t.count {
            out.push(t.token);
        }
    }
    out
}

fn leaves(segments: &[Segment<Repeated>]) -> Vec<Repeated> {
    let mut out: Vec<Repeated> = Vec::new();
    for segment in segments {
        match segment {
            Segment::Executable(tokens) => out.extend(tokens.tokens.iter().copied()),
            Segment::Loop(body) => out.extend(leaves(body)),
        }
    }
    out
}

fn block(tokens: Vec<Repeated>) -> Segment<Repeated> {
    Segment::Executable(Tokens::new(tokens))
}

#[test]
fn characters_and_instructions_correspond() {
    let all = [
        (Token::PointerAdd, '>'),
        (Token::PointerSub, '<'),
        (Token::ValueAdd, '+'),
        (Token::ValueSub, '-'),
        (Token::Read, ','),
        (Token::Write, '.'),
        (Token::LoopStart, '['),
        (Token::LoopEnd, ']'),
    ];
    for (token, c) in all {
        assert_eq!(token.as_char(), c);
        assert_eq!(Token::from_char(c), Some(token));
    }
    assert_eq!(Token::from_char('a'), None);
    assert_eq!(Token::from_char('\n'), None);
    assert_eq!(Token::from_char('é'), None);
}

#[test]
fn plain_tokenizer_keeps_instructions_in_order() {
    let tokens = Token::tokenize("a+b-\n> <é[,.]!");
    assert_eq!(
        tokens.tokens,
        vec![
            Token::ValueAdd,
            Token::ValueSub,
            Token::PointerAdd,
            Token::PointerSub,
            Token::LoopStart,
            Token::Read,
            Token::Write,
            Token::LoopEnd,
        ]
    );
    assert_eq!(Token::ValueAdd.token(), Token::ValueAdd);
    assert_eq!(Token::ValueAdd.count(), 1);
}

#[test]
fn text_without_instructions_gives_no_tokens() {
    assert_eq!(Token::tokenize("").tokens, Vec::<Token>::new());
    assert_eq!(Token::tokenize("hello world\n").tokens, Vec::<Token>::new());
    assert_eq!(Repeated::tokenize("").tokens, Vec::<Repeated>::new());
    assert_eq!(Repeated::tokenize("no code here").tokens, Vec::<Repeated>::new());
}

#[test]
fn run_length_tokenizer_merges_runs() {
    let tokens = Repeated::tokenize("+++ >> x > - --.");
    assert_eq!(
        tokens.tokens,
        vec![
            rep(Token::ValueAdd, 3),
            rep(Token::PointerAdd, 3),
            rep(Token::ValueSub, 3),
            rep(Token::Write, 1),
        ]
    );
    let third = rep(Token::ValueSub, 3);
    assert_eq!(third.token(), Token::ValueSub);
    assert_eq!(third.count(), 3);
}

#[test]
fn loop_markers_are_never_merged() {
    let tokens = Repeated::tokenize("[[++]]]]");
    assert_eq!(
        tokens.tokens,
        vec![
            rep(Token::LoopStart, 1),
            rep(Token::LoopStart, 1),
            rep(Token::ValueAdd, 2),
            rep(Token::LoopEnd, 1),
            rep(Token::LoopEnd, 1),
            rep(Token::LoopEnd, 1),
            rep(Token::LoopEnd, 1),
        ]
    );
}

#[test]
fn consecutive_reads_and_writes_are_merged() {
    let tokens = Repeated::tokenize(",,..");
    assert_eq!(tokens.tokens, vec![rep(Token::Read, 2), rep(Token::Write, 2)]);
}

#[test]
fn equal_runs_apart_stay_apart() {
    let tokens = Repeated::tokenize("++-++");
    assert_eq!(
        tokens.tokens,
        vec![rep(Token::ValueAdd, 2), rep(Token::ValueSub, 1), rep(Token::ValueAdd, 2)]
    );
}

#[test]
fn compression_round_trip() {
    let sources = ["", "+", "+++[>+++<-]>.", ",,[[..]]--<<<>", "[][][]", "++++++++[>++++[>++>+++>+++>+<<<<-]>+>+>->>+[<]<-]"];
    for source in sources {
        let plain = Token::tokenize(source).tokens;
        let compressed = Repeated::compress(&plain);
        assert_eq!(expand(&compressed), plain);
        assert_eq!(compressed, Repeated::tokenize(source).tokens);
        for t in &compressed {
            assert!(t.count >= 1);
        }
    }
}

#[test]
fn straight_line_code_is_one_block() {
    let segments = Repeated::tokenize("+++.").segment();
    assert_eq!(segments, vec![block(vec![rep(Token::ValueAdd, 3), rep(Token::Write, 1)])]);
}

#[test]
fn loops_nest_as_brackets_do() {
    let segments = Repeated::tokenize("+++[>+++<-]>.").segment();
    assert_eq!(
        segments,
        vec![
            block(vec![rep(Token::ValueAdd, 3)]),
            Segment::Loop(vec![block(vec![
                rep(Token::PointerAdd, 1),
                rep(Token::ValueAdd, 3),
                rep(Token::PointerSub, 1),
                rep(Token::ValueSub, 1),
            ])]),
            block(vec![rep(Token::PointerAdd, 1), rep(Token::Write, 1)]),
        ]
    );
}

#[test]
fn deep_and_sibling_loops() {
    let segments = Repeated::tokenize("[[-]>[+]]<[.]").segment();
    assert_eq!(
        segments,
        vec![
            Segment::Loop(vec![
                Segment::Loop(vec![block(vec![rep(Token::ValueSub, 1)])]),
                block(vec![rep(Token::PointerAdd, 1)]),
                Segment::Loop(vec![block(vec![rep(Token::ValueAdd, 1)])]),
            ]),
            block(vec![rep(Token::PointerSub, 1)]),
            Segment::Loop(vec![block(vec![rep(Token::Write, 1)])]),
        ]
    );
}

#[test]
fn empty_loop_body_is_an_empty_loop() {
    let segments = Repeated::tokenize("[]").segment();
    assert_eq!(segments, vec![Segment::Loop(vec![])]);
    let segments = Repeated::tokenize("+[][]-").segment();
    assert_eq!(
        segments,
        vec![
            block(vec![rep(Token::ValueAdd, 1)]),
            Segment::Loop(vec![]),
            Segment::Loop(vec![]),
            block(vec![rep(Token::ValueSub, 1)]),
        ]
    );
}

#[test]
fn no_tokens_give_no_segments() {
    let segments = Tokens::<Repeated>::new(vec![]).segment();
    assert_eq!(segments, vec![]);
}

#[test]
fn dangling_loop_start_takes_the_rest_as_its_body() {
    let segments = Repeated::tokenize("+[->[.").segment();
    assert_eq!(
        segments,
        vec![
            block(vec![rep(Token::ValueAdd, 1)]),
            Segment::Loop(vec![
                block(vec![rep(Token::ValueSub, 1), rep(Token::PointerAdd, 1)]),
                Segment::Loop(vec![block(vec![rep(Token::Write, 1)])]),
            ]),
        ]
    );
}

#[test]
fn dangling_loop_end_drops_what_follows() {
    let segments = Repeated::tokenize("+]-[.]").segment();
    assert_eq!(segments, vec![block(vec![rep(Token::ValueAdd, 1)])]);
    let segments = Repeated::tokenize("[-]]+++").segment();
    assert_eq!(segments, vec![Segment::Loop(vec![block(vec![rep(Token::ValueSub, 1)])])]);
}

#[test]
fn structuring_works_on_plain_tokens_too() {
    let segments = Token::tokenize("++[-]").segment();
    assert_eq!(
        segments,
        vec![
            Segment::Executable(Tokens::new(vec![Token::ValueAdd, Token::ValueAdd])),
            Segment::Loop(vec![Segment::Executable(Tokens::new(vec![Token::ValueSub]))]),
        ]
    );
}

#[test]
fn structuring_preserves_order() {
    let sources = ["+++[>+++<-]>.", "[[-]>[+]]<[.]", ",[.,]", "[]", "+[[[]]]-", ""];
    for source in sources {
        let tokens = Repeated::tokenize(source);
        let flat: Vec<Repeated> = tokens
            .tokens
            .iter()
            .copied()
            .filter(|t| t.token != Token::LoopStart && t.token != Token::LoopEnd)
            .collect();
        let segments = tokens.segment();
        assert_eq!(leaves(&segments), flat);
    }
}

#[test]
fn needs_input_iff_the_program_reads() {
    let cases = [
        ("+++.", false),
        (",.", true),
        ("+[>[>[,]]]", true),
        ("+[>[>[.]]]", false),
        ("", false),
        ("a comment, with a comma", true),
        ("[[[[[[[[,]]]]]]]]", true),
    ];
    for (source, expected) in cases {
        let file = File::<Repeated>::from_str(source).unwrap();
        assert_eq!(file.needs_input, expected);
        let plain = File::<Token>::from_str(source).unwrap();
        assert_eq!(plain.needs_input, expected);
    }
}

#[test]
fn parsing_gives_the_segments_of_the_tokens() {
    let file = File::<Repeated>::from_str("+++[>+++<-]>.").unwrap();
    assert_eq!(file.segments, Repeated::tokenize("+++[>+++<-]>.").segment());
    assert!(!file.needs_input);
    let parsed: File<Repeated> = ",[.,]".parse().unwrap();
    assert_eq!(parsed, File::<Repeated>::from_str(",[.,]").unwrap());
    assert!(parsed.needs_input);
}

#[test]
fn copies_are_equal() {
    let file = File::<Repeated>::from_str("+++[>[-]+++<-]>.,").unwrap();
    let copy = file.clone();
    assert_eq!(copy, file);
    let segments = Repeated::tokenize("[[-]>[+]]<[.]").segment();
    for segment in &segments {
        assert_eq!(&segment.clone(), segment);
    }
    let tokens = Repeated::tokenize("++--");
    assert_eq!(tokens.clone(), tokens);
}

#[test]
fn structuring_can_be_undone() {
    fn skeleton(segments: &[Segment<Repeated>]) -> Vec<Token> {
        let mut out: Vec<Token> = Vec::new();
        for segment in segments {
            match segment {
                Segment::Executable(tokens) => out.extend(tokens.tokens.iter().map(|t| t.token)),
                Segment::Loop(body) => {
                    out.push(Token::LoopStart);
                    out.extend(skeleton(body));
                    out.push(Token::LoopEnd);
                }
            }
        }
        out
    }
    fn normal(segments: &[Segment<Repeated>]) -> bool {
        segments.iter().enumerate().all(|(i, segment)| match segment {
            Segment::Executable(tokens) => {
                !tokens.tokens.is_empty()
                    && tokens
                        .tokens
                        .iter()
                        .all(|t| t.token != Token::LoopStart && t.token != Token::LoopEnd)
                    && (i + 1 == segments.len() || matches!(segments[i + 1], Segment::Loop(_)))
            }
            Segment::Loop(body) => normal(body),
        })
    }
    let sources = ["+++[>+++<-]>.", "[[-]>[+]]<[.]", ",[.,]", "[]", "+[[[]]]-", "", "[][]", "+"];
    for source in sources {
        let tokens = Repeated::tokenize(source);
        let flat: Vec<Token> = tokens.tokens.iter().map(|t| t.token).collect();
        let segments = tokens.segment();
        assert_eq!(skeleton(&segments), flat);
        assert!(normal(&segments));
    }
    // Without matching markers the tree is still in normal form.
    for source in ["+[->[.", "+]-[.]", "]", "[", "[[[", "]]]+"] {
        assert!(normal(&Repeated::tokenize(source).segment()));
    }
}
