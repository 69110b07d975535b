//! The context manager: estimating a request's token usage, and purifying
//! conversation history by stripping thinking blocks, to keep requests
//! under the model's context limit and free of stale signatures.

use vstd::prelude::*;

verus! {

/// How aggressively history is purified.
#[derive(Debug, Clone, Copy, PartialEq, Eq, Structural)]
pub enum PurificationStrategy {
    /// Keep every thinking block.
    Disabled,
    /// Keep thinking blocks only in the most recent turns.
    Soft,
    /// Strip every thinking block from history.
    Aggressive,
}

/// What a tool result carries: plain text, a list of parts each possibly
/// carrying text, or anything else already serialized.
pub enum ToolResultContent {
    Text(String),
    Parts(Vec<ToolResultPart>),
    Raw(String),
}

/// One part of a structured tool result.
pub struct ToolResultPart {
    pub text: Option<String>,
}

/// One content block of a message.
pub enum ContentBlock {
    Text { text: String },
    Thinking { thinking: String, signature: Option<String> },
    RedactedThinking { data: String },
    ToolUse { name: String, input_json: String },
    ToolResult { content: ToolResultContent },
    Other { json: String },
}

/// What a message carries: a plain string or content blocks.
pub enum MessageContent {
    Text(String),
    Blocks(Vec<ContentBlock>),
}

/// One conversation message.
pub struct Message {
    pub role: String,
    pub content: MessageContent,
}

/// One system-prompt block.
pub struct SystemBlock {
    pub text: String,
}

/// The system prompt: a plain string or blocks.
pub enum SystemPrompt {
    Text(String),
    Blocks(Vec<SystemBlock>),
}

/// The extended-thinking configuration of a request.
pub struct ThinkingConfig {
    pub budget_tokens: Option<u32>,
}

/// The parts of a request the estimator measures; tool definitions are
/// carried already serialized.
pub struct ClaudeRequest {
    pub model: String,
    pub messages: Vec<Message>,
    pub system: Option<SystemPrompt>,
    pub tools: Option<Vec<String>>,
    pub stream: bool,
    pub max_tokens: Option<u32>,
    pub thinking: Option<ThinkingConfig>,
}

/// The byte length of a text as the machine reports it.
pub open spec fn byte_len(s: Seq<char>) -> int {
    (vstd::utf8::encode_utf8(s).len() as usize) as int
}

/// Approximately three and a half characters per token: the token estimate
/// of a text is the rounded-up seventh of twice its byte length.
pub open spec fn tok_of(s: Seq<char>) -> int {
    (2 * byte_len(s) + 6) / 7
}

/// The token estimate of one text.
pub fn estimate_tokens_from_str(s: &str) -> (r: u32)
    ensures
        r == if tok_of(s@) <= u32::MAX {
            tok_of(s@)
        } else {
            u32::MAX as int
        },
{
    let t = tok_exec(s);
    if t > 0xffff_ffffu64 {
        u32::MAX
    } else {
        t as u32
    }
}

/// The token estimate of one content block.
pub open spec fn block_tokens(b: ContentBlock) -> int {
    match b {
        ContentBlock::Text { text } => tok_of(text@),
        ContentBlock::Thinking { thinking, .. } => tok_of(thinking@) + 100,
        ContentBlock::RedactedThinking { data } => tok_of(data@),
        ContentBlock::ToolUse { name, input_json } => 20 + tok_of(name@) + tok_of(input_json@),
        ContentBlock::ToolResult { content } => 10 + tool_result_tokens(content),
        ContentBlock::Other { .. } => 0,
    }
}

/// The token estimate of a tool result.
pub open spec fn tool_result_tokens(c: ToolResultContent) -> int {
    match c {
        ToolResultContent::Text(s) => tok_of(s@),
        ToolResultContent::Parts(parts) => sum_part_tokens(parts@),
        ToolResultContent::Raw(s) => tok_of(s@),
    }
}

/// The token estimate of tool-result parts.
pub open spec fn sum_part_tokens(parts: Seq<ToolResultPart>) -> int
    decreases parts.len(),
{
    if parts.len() == 0 {
        0
    } else {
        sum_part_tokens(parts.drop_last()) + (match parts.last().text {
            Some(t) => tok_of(t@),
            None => 0,
        })
    }
}

/// The token estimate of a block list.
pub open spec fn sum_block_tokens(bs: Seq<ContentBlock>) -> int
    decreases bs.len(),
{
    if bs.len() == 0 {
        0
    } else {
        sum_block_tokens(bs.drop_last()) + block_tokens(bs.last())
    }
}

/// The token estimate of one message: a fixed overhead plus its content.
pub open spec fn message_tokens(m: Message) -> int {
    4 + match m.content {
        MessageContent::Text(s) => tok_of(s@),
        MessageContent::Blocks(bs) => sum_block_tokens(bs@),
    }
}

/// The token estimate of the message list.
pub open spec fn sum_message_tokens(ms: Seq<Message>) -> int
    decreases ms.len(),
{
    if ms.len() == 0 {
        0
    } else {
        sum_message_tokens(ms.drop_last()) + message_tokens(ms.last())
    }
}

/// The token estimate of the system prompt.
pub open spec fn system_tokens(s: Option<SystemPrompt>) -> int {
    match s {
        None => 0,
        Some(SystemPrompt::Text(t)) => tok_of(t@),
        Some(SystemPrompt::Blocks(bs)) => sum_system_tokens(bs@),
    }
}

/// The token estimate of the system blocks.
pub open spec fn sum_system_tokens(bs: Seq<SystemBlock>) -> int
    decreases bs.len(),
{
    if bs.len() == 0 {
        0
    } else {
        sum_system_tokens(bs.drop_last()) + tok_of(bs.last().text@)
    }
}

/// The token estimate of the serialized tool definitions.
pub open spec fn sum_tool_tokens(ts: Seq<Seq<char>>) -> int
    decreases ts.len(),
{
    if ts.len() == 0 {
        0
    } else {
        sum_tool_tokens(ts.drop_last()) + tok_of(ts.last())
    }
}

/// The reserved thinking budget.
pub open spec fn thinking_tokens(t: Option<ThinkingConfig>) -> int {
    match t {
        None => 0,
        Some(cfg) => match cfg.budget_tokens {
            None => 0,
            Some(b) => b as int,
        },
    }
}

/// The whole request's token estimate.
pub open spec fn spec_estimate(req: ClaudeRequest) -> int {
    system_tokens(req.system) + sum_message_tokens(req.messages@) + (match req.tools {
        None => 0,
        Some(ts) => sum_tool_tokens(ts.deep_view()),
    }) + thinking_tokens(req.thinking)
}

/// A capped running total: the exact sum until it saturates.
spec fn sat64(total: int) -> int {
    if total > u64::MAX {
        u64::MAX as int
    } else {
        total
    }
}

/// Adds one exact non-negative amount to a saturating total.
fn sat_add(acc: u64, ghost_total: Ghost<int>, amount: u64) -> (r: u64)
    requires
        acc == sat64(ghost_total@),
        ghost_total@ >= 0,
    ensures
        r == sat64(ghost_total@ + amount),
{
    acc.saturating_add(amount)
}

/// The token estimate of one text, exact, as a 64-bit value.
fn tok_exec(s: &str) -> (r: u64)
    ensures
        r == tok_of(s@),
        r >= 0,
{
    let n = s.len();
    let t = (2 * (n as u128) + 6) / 7;
    proof {
        assert(n == byte_len(s@));
        assert(t as int == (2 * (n as int) + 6) / 7);
        assert(t == tok_of(s@));
        assert(t <= u64::MAX);
    }
    t as u64
}

/// The context manager.
pub struct ContextManager {}

/// A content block that survives purification: anything but a thinking or
/// redacted-thinking block.
pub open spec fn keep_block() -> spec_fn(ContentBlock) -> bool {
    |b: ContentBlock|
        !(b is Thinking || b is RedactedThinking)
}

/// How many trailing messages a strategy protects.
pub open spec fn protected_count(strategy: PurificationStrategy) -> int {
    if strategy == PurificationStrategy::Soft {
        4
    } else {
        0
    }
}

/// The purification relation for one message: protected messages and
/// non-assistant or plain-string messages stay untouched; an assistant
/// block list loses its thinking blocks, and one left empty by that is
/// replaced by a single `...` placeholder to keep the conversation shape
/// valid.
pub open spec fn msg_purified(m0: Message, m1: Message, protect: bool) -> bool {
    if protect || m0.role@ != "assistant"@ || !(m0.content is Blocks) {
        m1 == m0
    } else {
        &&& m1.role == m0.role
        &&& m1.content is Blocks
        &&& {
            let bs = m0.content->Blocks_0@;
            let kept = bs.filter(keep_block());
            let out = m1.content->Blocks_0@;
            if kept.len() < bs.len() && kept.len() == 0 {
                out.len() == 1 && out[0] is Text && out[0]->Text_text@ == "..."@
            } else {
                out == kept
            }
        }
    }
}

/// The message at `i` would lose a block.
pub open spec fn msg_would_change(m: Message, protect: bool) -> bool {
    !protect && m.role@ == "assistant"@ && m.content is Blocks && m.content->Blocks_0@.filter(
        keep_block(),
    ).len() < m.content->Blocks_0@.len()
}

impl ContextManager {
    /// Purifies the history in place by the strategy, and reports whether
    /// anything changed. The most recent messages a strategy protects keep
    /// their thinking blocks.
    pub fn purify_history(messages: &mut Vec<Message>, strategy: PurificationStrategy) -> (r:
        bool)
        ensures
            final(messages)@.len() == old(messages)@.len(),
            strategy == PurificationStrategy::Disabled || old(messages)@.len() == 0
                ==> final(messages)@ == old(messages)@ && !r,
            strategy != PurificationStrategy::Disabled && old(messages)@.len() > 0 ==> {
                &&& forall|i: int|
                    0 <= i < old(messages)@.len() ==> msg_purified(
                        old(messages)@[i],
                        #[trigger] final(messages)@[i],
                        i >= old(messages)@.len() - protected_count(strategy),
                    )
                &&& r == exists|i: int|
                    0 <= i < old(messages)@.len() && msg_would_change(
                        #[trigger] old(messages)@[i],
                        i >= old(messages)@.len() - protected_count(strategy),
                    )
            },
    {
        if matches!(strategy, PurificationStrategy::Disabled) {
            return false;
        }
        let total = messages.len();
        if total == 0 {
            return false;
        }
        let protected: usize = if matches!(strategy, PurificationStrategy::Soft) {
            4
        } else {
            0
        };
        let start_protection: usize = if total >= protected {
            total - protected
        } else {
            0
        };
        let ghost ms0 = messages@;
        let mut out: Vec<Message> = Vec::new();
        let mut modified = false;
        let mut i: usize = 0;
        while messages.len() > 0
            invariant
                i == out@.len(),
                i + messages@.len() == ms0.len(),
                messages@ == ms0.skip(i as int),
                total == ms0.len(),
                protected == protected_count(strategy),
                start_protection == if ms0.len() - protected_count(strategy) >= 0 {
                    ms0.len() - protected_count(strategy)
                } else {
                    0
                },
                forall|j: int|
                    0 <= j < i ==> msg_purified(
                        ms0[j],
                        #[trigger] out@[j],
                        j >= ms0.len() - protected_count(strategy),
                    ),
                modified == exists|j: int|
                    0 <= j < i && msg_would_change(
                        #[trigger] ms0[j],
                        j >= ms0.len() - protected_count(strategy),
                    ),
            decreases messages.len(),
        {
            let m = messages.remove(0);
            proof {
                assert(m == ms0[i as int]);
                assert(messages@ =~= ms0.skip(i + 1));
            }
            let protect = i >= start_protection;
            let is_assistant = crate::text::str_eq(m.role.as_str(), "assistant");
            let is_blocks = matches!(m.content, MessageContent::Blocks(_));
            let ghost out0 = out@;
            if !protect && is_assistant && is_blocks {
                let (m1, changed) = purify_message(m, protect);
                out.push(m1);
                if changed {
                    modified = true;
                }
                proof {
                    assert(out@[i as int] == m1);
                    assert(msg_purified(ms0[i as int], out@[i as int], protect));
                    assert(changed == msg_would_change(ms0[i as int], protect));
                }
            } else {
                proof {
                    assert(msg_purified(ms0[i as int], m, protect));
                    assert(!msg_would_change(ms0[i as int], protect));
                }
                out.push(m);
            }
            i = i + 1;
        }
        proof {
            assert(i == ms0.len());
        }
        *messages = out;
        modified
    }
}

/// Strips the thinking blocks of one unprotected assistant message.
fn purify_message(m: Message, protect: bool) -> (r: (Message, bool))
    requires
        !protect,
        m.role@ == "assistant"@,
        m.content is Blocks,
    ensures
        msg_purified(m, r.0, protect),
        r.1 == msg_would_change(m, protect),
{
    let Message { role, content } = m;
    let mut blocks = match content {
        MessageContent::Blocks(bs) => bs,
        MessageContent::Text(t) => {
            proof {
                assert(false);
            }
            Vec::new()
        },
    };
    let ghost bs0 = blocks@;
    let initial_len = blocks.len();
    let mut kept: Vec<ContentBlock> = Vec::new();
    let mut i: usize = 0;
    while blocks.len() > 0
        invariant
            initial_len == bs0.len(),
            i + blocks@.len() == bs0.len(),
            blocks@ == bs0.skip(i as int),
            kept@ == bs0.take(i as int).filter(keep_block()),
        decreases blocks.len(),
    {
        let b = blocks.remove(0);
        proof {
            reveal(Seq::filter);
            assert(b == bs0[i as int]);
            assert(blocks@ =~= bs0.skip(i + 1));
            assert(bs0.take(i + 1).drop_last() =~= bs0.take(i as int));
            assert(bs0.take(i + 1).last() == bs0[i as int]);
        }
        let keep = match &b {
            ContentBlock::Thinking { .. } => false,
            ContentBlock::RedactedThinking { .. } => false,
            _ => true,
        };
        if keep {
            let ghost kept0 = kept@;
            kept.push(b);
            proof {
                assert(kept@ =~= kept0.push(bs0[i as int]));
                assert(keep_block()(bs0.take(i + 1).last()));
            }
        } else {
            proof {
                assert(!keep_block()(bs0.take(i + 1).last()));
            }
        }
        i = i + 1;
    }
    proof {
        assert(bs0.take(i as int) =~= bs0);
    }
    let changed = kept.len() != initial_len;
    if changed && kept.len() == 0 {
        kept.push(ContentBlock::Text { text: "...".to_owned() });
        proof {
            assert(kept@[0] is Text);
            assert(kept@[0]->Text_text@ == "..."@);
        }
    }
    proof {
        bs0.lemma_filter_len(keep_block());
    }
    (Message { role, content: MessageContent::Blocks(kept) }, changed)
}

impl ContextManager {
    /// A lightweight estimate of the request's token usage — not a precise
    /// count: the sum over system prompt, messages, serialized tools and
    /// the thinking budget, saturating at the 32-bit maximum.
    pub fn estimate_token_usage(request: &ClaudeRequest) -> (r: u32)
        ensures
            r == if spec_estimate(*request) <= u32::MAX {
                spec_estimate(*request)
            } else {
                u32::MAX as int
            },
    {
        let mut acc: u64 = 0;
        let ghost mut total: int = 0int;
        match &request.system {
            None => {},
            Some(SystemPrompt::Text(s)) => {
                acc = sat_add(acc, Ghost(total), tok_exec(s.as_str()));
                proof {
                    total = total + tok_of(s@);
                }
            },
            Some(SystemPrompt::Blocks(bs)) => {
                let mut i: usize = 0;
                while i < bs.len()
                    invariant
                        i <= bs.len(),
                        total >= 0,
                        acc == sat64(total),
                        total == sum_system_tokens(bs@.take(i as int)),
                    decreases bs.len() - i,
                {
                    proof {
                        assert(bs@.take(i + 1).drop_last() =~= bs@.take(i as int));
                        assert(bs@.take(i + 1).last() == bs@[i as int]);
                    }
                    acc = sat_add(acc, Ghost(total), tok_exec(bs[i].text.as_str()));
                    proof {
                        total = total + tok_of(bs@[i as int].text@);
                    }
                    i = i + 1;
                }
                proof {
                    assert(bs@.take(bs.len() as int) =~= bs@);
                }
            },
        }
        proof {
            assert(total == system_tokens(request.system));
        }
        let ghost base_sys = total;
        let mut m: usize = 0;
        while m < request.messages.len()
            invariant
                m <= request.messages.len(),
                base_sys == system_tokens(request.system),
                base_sys >= 0,
                total >= 0,
                acc == sat64(total),
                total == base_sys + sum_message_tokens(request.messages@.take(m as int)),
            decreases request.messages.len() - m,
        {
            proof {
                assert(request.messages@.take(m + 1).drop_last() =~= request.messages@.take(
                    m as int,
                ));
                assert(request.messages@.take(m + 1).last() == request.messages@[m as int]);
            }
            let ghost msg_base = total;
            acc = sat_add(acc, Ghost(total), 4);
            proof {
                total = total + 4;
            }
            match &request.messages[m].content {
                MessageContent::Text(s) => {
                    acc = sat_add(acc, Ghost(total), tok_exec(s.as_str()));
                    proof {
                        total = total + tok_of(s@);
                    }
                },
                MessageContent::Blocks(bs) => {
                    let mut b: usize = 0;
                    while b < bs.len()
                        invariant
                            b <= bs.len(),
                            total >= 0,
                            acc == sat64(total),
                            total == msg_base + 4 + sum_block_tokens(bs@.take(b as int)),
                            msg_base >= 0,
                        decreases bs.len() - b,
                    {
                        proof {
                            assert(bs@.take(b + 1).drop_last() =~= bs@.take(b as int));
                            assert(bs@.take(b + 1).last() == bs@[b as int]);
                        }
                        match &bs[b] {
                            ContentBlock::Text { text } => {
                                acc = sat_add(acc, Ghost(total), tok_exec(text.as_str()));
                                proof {
                                    total = total + tok_of(text@);
                                }
                            },
                            ContentBlock::Thinking { thinking, .. } => {
                                acc = sat_add(acc, Ghost(total), tok_exec(thinking.as_str()));
                                proof {
                                    total = total + tok_of(thinking@);
                                }
                                acc = sat_add(acc, Ghost(total), 100);
                                proof {
                                    total = total + 100;
                                }
                            },
                            ContentBlock::RedactedThinking { data } => {
                                acc = sat_add(acc, Ghost(total), tok_exec(data.as_str()));
                                proof {
                                    total = total + tok_of(data@);
                                }
                            },
                            ContentBlock::ToolUse { name, input_json } => {
                                acc = sat_add(acc, Ghost(total), 20);
                                proof {
                                    total = total + 20;
                                }
                                acc = sat_add(acc, Ghost(total), tok_exec(name.as_str()));
                                proof {
                                    total = total + tok_of(name@);
                                }
                                acc = sat_add(acc, Ghost(total), tok_exec(input_json.as_str()));
                                proof {
                                    total = total + tok_of(input_json@);
                                }
                            },
                            ContentBlock::ToolResult { content } => {
                                acc = sat_add(acc, Ghost(total), 10);
                                proof {
                                    total = total + 10;
                                }
                                match content {
                                    ToolResultContent::Text(s) => {
                                        acc = sat_add(acc, Ghost(total), tok_exec(s.as_str()));
                                        proof {
                                            total = total + tok_of(s@);
                                        }
                                    },
                                    ToolResultContent::Raw(s) => {
                                        acc = sat_add(acc, Ghost(total), tok_exec(s.as_str()));
                                        proof {
                                            total = total + tok_of(s@);
                                        }
                                    },
                                    ToolResultContent::Parts(parts) => {
                                        let ghost part_base = total;
                                        let mut p: usize = 0;
                                        while p < parts.len()
                                            invariant
                                                p <= parts.len(),
                                                total >= 0,
                                                acc == sat64(total),
                                                total == part_base + sum_part_tokens(
                                                    parts@.take(p as int),
                                                ),
                                                part_base >= 0,
                                            decreases parts.len() - p,
                                        {
                                            proof {
                                                assert(parts@.take(p + 1).drop_last()
                                                    =~= parts@.take(p as int));
                                                assert(parts@.take(p + 1).last() == parts@[
                                                    p as int]);
                                            }
                                            match &parts[p].text {
                                                Some(t) => {
                                                    acc = sat_add(
                                                        acc,
                                                        Ghost(total),
                                                        tok_exec(t.as_str()),
                                                    );
                                                    proof {
                                                        total = total + tok_of(t@);
                                                    }
                                                },
                                                None => {},
                                            }
                                            p = p + 1;
                                        }
                                        proof {
                                            assert(parts@.take(parts.len() as int) =~= parts@);
                                        }
                                    },
                                }
                            },
                            ContentBlock::Other { .. } => {},
                        }
                        proof {
                            assert(total == msg_base + 4 + sum_block_tokens(bs@.take(b + 1)));
                        }
                        b = b + 1;
                    }
                    proof {
                        assert(bs@.take(bs.len() as int) =~= bs@);
                    }
                },
            }
            proof {
                assert(total == base_sys + sum_message_tokens(request.messages@.take(m + 1)));
            }
            m = m + 1;
        }
        proof {
            assert(request.messages@.take(request.messages.len() as int) =~= request.messages@);
        }
        match &request.tools {
            None => {},
            Some(ts) => {
                let ghost base_t = total;
                let mut t: usize = 0;
                while t < ts.len()
                    invariant
                        t <= ts.len(),
                        base_t >= 0,
                        total >= 0,
                        acc == sat64(total),
                        ts.deep_view().len() == ts.len(),
                        forall|j: int| 0 <= j < ts.len() ==> ts.deep_view()[j] == ts[j]@,
                        total == base_t + sum_tool_tokens(ts.deep_view().take(t as int)),
                    decreases ts.len() - t,
                {
                    proof {
                        assert(ts.deep_view().take(t + 1).drop_last() =~= ts.deep_view().take(
                            t as int,
                        ));
                        assert(ts.deep_view().take(t + 1).last() == ts.deep_view()[t as int]);
                    }
                    acc = sat_add(acc, Ghost(total), tok_exec(ts[t].as_str()));
                    proof {
                        total = total + tok_of(ts.deep_view()[t as int]);
                    }
                    t = t + 1;
                }
                proof {
                    assert(ts.deep_view().take(ts.len() as int) =~= ts.deep_view());
                }
            },
        }
        match &request.thinking {
            None => {},
            Some(cfg) => match cfg.budget_tokens {
                None => {},
                Some(budget) => {
                    acc = sat_add(acc, Ghost(total), budget as u64);
                    proof {
                        total = total + budget as int;
                    }
                },
            },
        }
        proof {
            assert(total == spec_estimate(*request));
        }
        if acc > 0xffff_ffffu64 {
            u32::MAX
        } else {
            acc as u32
        }
    }
}

} // verus!
