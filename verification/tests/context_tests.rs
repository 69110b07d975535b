use multi_instance::context::{
    ClaudeRequest, ContentBlock, ContextManager, Message, MessageContent, PurificationStrategy,
};

fn create_test_request() -> ClaudeRequest {
    ClaudeRequest {
        model: "test-model".into(),
        messages: vec![],
        system: None,
        tools: None,
        stream: false,
        max_tokens: None,
        thinking: None,
    }
}

#[test]
fn test_estimate_tokens() {
    let mut req = create_test_request();
    req.messages = vec![Message {
        role: "user".into(),
        content: MessageContent::Text("Hello World".into()),
    }];

    let tokens = ContextManager::estimate_token_usage(&req);
    assert!(tokens > 0);
    assert!(tokens < 50);
}

#[test]
fn test_estimate_tokens_exact() {
    // "Hello World" is 11 bytes: ceil(11 / 3.5) = 4, plus 4 per-message overhead.
    let mut req = create_test_request();
    req.messages = vec![Message {
        role: "user".into(),
        content: MessageContent::Text("Hello World".into()),
    }];
    assert_eq!(ContextManager::estimate_token_usage(&req), 8);
}

#[test]
fn test_purify_history_soft() {
    // Construct history of 6 messages (indices 0-5)
    // 0: Assistant (Ancient) -> Should be purified
    // 1: User
    // 2: Assistant (Old) -> Should be protected (index 2 >= 6-4=2)
    // 3: User
    // 4: Assistant (Recent) -> Should be protected
    // 5: User

    let mut messages = vec![
        Message {
            role: "assistant".into(),
            content: MessageContent::Blocks(vec![
                ContentBlock::Thinking { thinking: "ancient".into(), signature: None },
                ContentBlock::Text { text: "A0".into() },
            ]),
        },
        Message { role: "user".into(), content: MessageContent::Text("Q1".into()) },
        Message {
            role: "assistant".into(),
            content: MessageContent::Blocks(vec![
                ContentBlock::Thinking { thinking: "old".into(), signature: None },
                ContentBlock::Text { text: "A1".into() },
            ]),
        },
        Message { role: "user".into(), content: MessageContent::Text("Q2".into()) },
        Message {
            role: "assistant".into(),
            content: MessageContent::Blocks(vec![
                ContentBlock::Thinking { thinking: "recent".into(), signature: None },
                ContentBlock::Text { text: "A2".into() },
            ]),
        },
        Message { role: "user".into(), content: MessageContent::Text("current".into()) },
    ];

    ContextManager::purify_history(&mut messages, PurificationStrategy::Soft);

    // 0: Ancient -> Filtered
    if let MessageContent::Blocks(blocks) = &messages[0].content {
        assert_eq!(blocks.len(), 1);
        if let ContentBlock::Text { text } = &blocks[0] {
            assert_eq!(text, "A0");
        } else {
            panic!("Wrong block");
        }
    }

    // 2: Old -> Protected
    if let MessageContent::Blocks(blocks) = &messages[2].content {
        assert_eq!(blocks.len(), 2);
    }
}

#[test]
fn test_purify_history_aggressive() {
    let mut messages = vec![Message {
        role: "assistant".into(),
        content: MessageContent::Blocks(vec![
            ContentBlock::Thinking { thinking: "thought".into(), signature: None },
            ContentBlock::Text { text: "text".into() },
        ]),
    }];

    ContextManager::purify_history(&mut messages, PurificationStrategy::Aggressive);

    if let MessageContent::Blocks(blocks) = &messages[0].content {
        assert_eq!(blocks.len(), 1);
        assert!(matches!(blocks[0], ContentBlock::Text { .. }));
    }
}

#[test]
fn test_purify_only_thinking_leaves_placeholder() {
    let mut messages = vec![Message {
        role: "assistant".into(),
        content: MessageContent::Blocks(vec![ContentBlock::Thinking {
            thinking: "only thought".into(),
            signature: Some("sig".into()),
        }]),
    }];

    let modified = ContextManager::purify_history(&mut messages, PurificationStrategy::Aggressive);
    assert!(modified);
    if let MessageContent::Blocks(blocks) = &messages[0].content {
        assert_eq!(blocks.len(), 1);
        if let ContentBlock::Text { text } = &blocks[0] {
            assert_eq!(text, "...");
        } else {
            panic!("Wrong block");
        }
    } else {
        panic!("Wrong content");
    }
}

#[test]
fn test_purify_disabled_changes_nothing() {
    let mut messages = vec![Message {
        role: "assistant".into(),
        content: MessageContent::Blocks(vec![ContentBlock::Thinking {
            thinking: "kept".into(),
            signature: None,
        }]),
    }];
    let modified = ContextManager::purify_history(&mut messages, PurificationStrategy::Disabled);
    assert!(!modified);
    if let MessageContent::Blocks(blocks) = &messages[0].content {
        assert_eq!(blocks.len(), 1);
        assert!(matches!(blocks[0], ContentBlock::Thinking { .. }));
    }
}

#[test]
fn test_estimate_tokens_from_str_formula() {
    assert_eq!(multi_instance::context::estimate_tokens_from_str(""), 0);
    assert_eq!(multi_instance::context::estimate_tokens_from_str("abc"), 1);
    assert_eq!(multi_instance::context::estimate_tokens_from_str("Hello World"), 4);
}
