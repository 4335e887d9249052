//! LLM assistance: prompt templates and the backend decisions that do not
//! need the network (backend names, endpoint style, model name, the offline
//! mock response).
use vstd::prelude::*;
use vstd::string::StringExecFns;
use crate::text::{chars_of, has_prefix, string_of, sub_chars, trim_chars, trim_ws};

verus! {

// ── Prompt templates ─────────────────────────────────────────────────────────

/// Built-in writing prompt templates.
#[derive(Clone, Copy, Debug, PartialEq, Eq, Structural)]
pub enum PromptTemplate {
    Continuation,
    Expansion,
    DialogueOptimize,
    CharacterSummary,
    SceneOpening,
    PlotTwist,
    ChapterEnding,
    ChapterOutline,
}

/// Display label of a template.
pub open spec fn template_label(t: PromptTemplate) -> Seq<char> {
    match t {
        PromptTemplate::Continuation => "续写"@,
        PromptTemplate::Expansion => "扩写"@,
        PromptTemplate::DialogueOptimize => "对话优化"@,
        PromptTemplate::CharacterSummary => "人物总结"@,
        PromptTemplate::SceneOpening => "场景开头"@,
        PromptTemplate::PlotTwist => "情节转折"@,
        PromptTemplate::ChapterEnding => "章节结尾"@,
        PromptTemplate::ChapterOutline => "章节大纲"@,
    }
}

/// The instruction a template puts before the user's text.
pub open spec fn template_instruction(t: PromptTemplate) -> Seq<char> {
    match t {
        PromptTemplate::Continuation => "请续写以下内容，保持文风和人物性格一致："@,
        PromptTemplate::Expansion => "请扩写以下内容，丰富细节与描写："@,
        PromptTemplate::DialogueOptimize => "请根据人物设定优化以下对话，使其更符合人物性格："@,
        PromptTemplate::CharacterSummary => "请总结以下内容中人物的性格与特点："@,
        PromptTemplate::SceneOpening => "请为以下场景写一段引人入胜的开头："@,
        PromptTemplate::PlotTwist => "请为以下情节设计一个出人意料的转折："@,
        PromptTemplate::ChapterEnding => "请为以下章节写一个有力的结尾："@,
        PromptTemplate::ChapterOutline => "请为以下内容生成章节大纲："@,
    }
}

/// The prompt a template builds: the trimmed context block (when it is not
/// blank), the instruction, and the user's input, separated by blank lines.
pub open spec fn template_prompt(t: PromptTemplate, context: Seq<char>, input: Seq<char>) -> Seq<char> {
    let body = template_instruction(t) + "\n\n"@ + input;
    if trim_ws(context).len() == 0 {
        body
    } else {
        trim_ws(context) + "\n\n"@ + body
    }
}

impl PromptTemplate {
    /// Every template, in display order.
    pub fn all() -> (r: &'static [PromptTemplate])
        ensures
            r@ == seq![
                PromptTemplate::Continuation,
                PromptTemplate::Expansion,
                PromptTemplate::DialogueOptimize,
                PromptTemplate::CharacterSummary,
                PromptTemplate::SceneOpening,
                PromptTemplate::PlotTwist,
                PromptTemplate::ChapterEnding,
                PromptTemplate::ChapterOutline,
            ],
    {
        let r: &'static [PromptTemplate] = &[
            PromptTemplate::Continuation,
            PromptTemplate::Expansion,
            PromptTemplate::DialogueOptimize,
            PromptTemplate::CharacterSummary,
            PromptTemplate::SceneOpening,
            PromptTemplate::PlotTwist,
            PromptTemplate::ChapterEnding,
            PromptTemplate::ChapterOutline,
        ];
        assert(r@ =~= seq![
            PromptTemplate::Continuation,
            PromptTemplate::Expansion,
            PromptTemplate::DialogueOptimize,
            PromptTemplate::CharacterSummary,
            PromptTemplate::SceneOpening,
            PromptTemplate::PlotTwist,
            PromptTemplate::ChapterEnding,
            PromptTemplate::ChapterOutline,
        ]);
        r
    }

    pub fn label(&self) -> (r: &'static str)
        ensures
            r@ == template_label(*self),
    {
        match self {
            PromptTemplate::Continuation => "续写",
            PromptTemplate::Expansion => "扩写",
            PromptTemplate::DialogueOptimize => "对话优化",
            PromptTemplate::CharacterSummary => "人物总结",
            PromptTemplate::SceneOpening => "场景开头",
            PromptTemplate::PlotTwist => "情节转折",
            PromptTemplate::ChapterEnding => "章节结尾",
            PromptTemplate::ChapterOutline => "章节大纲",
        }
    }

    /// The instruction of the template.
    pub fn instruction(&self) -> (r: &'static str)
        ensures
            r@ == template_instruction(*self),
    {
        match self {
            PromptTemplate::Continuation => "请续写以下内容，保持文风和人物性格一致：",
            PromptTemplate::Expansion => "请扩写以下内容，丰富细节与描写：",
            PromptTemplate::DialogueOptimize => "请根据人物设定优化以下对话，使其更符合人物性格：",
            PromptTemplate::CharacterSummary => "请总结以下内容中人物的性格与特点：",
            PromptTemplate::SceneOpening => "请为以下场景写一段引人入胜的开头：",
            PromptTemplate::PlotTwist => "请为以下情节设计一个出人意料的转折：",
            PromptTemplate::ChapterEnding => "请为以下章节写一个有力的结尾：",
            PromptTemplate::ChapterOutline => "请为以下内容生成章节大纲：",
        }
    }

    /// Build the prompt: the trimmed context (if not blank), the instruction
    /// and the input, separated by blank lines.
    pub fn fill(&self, context: &str, input: &str) -> (r: String)
        ensures
            r@ == template_prompt(*self, context@, input@),
    {
        let mut body = String::from_str(self.instruction());
        body.append("\n\n");
        body.append(input);
        let ctx = trim_chars(&chars_of(context));
        if ctx.len() == 0 {
            return body;
        }
        let mut out = string_of(&ctx);
        out.append("\n\n");
        out.append(body.as_str());
        out
    }
}

// ── Backends ─────────────────────────────────────────────────────────────────

/// Simulated backend: returns a canned response without any network call.
pub struct MockBackend;

/// HTTP API backend (Ollama `/api/generate` or OpenAI-compatible
/// `/chat/completions`).
pub struct ApiBackend;

/// The first `n` characters of `s` (all of them when it is shorter).
pub open spec fn prefix_chars(s: Seq<char>, n: nat) -> Seq<char> {
    if s.len() <= n {
        s
    } else {
        s.take(n as int)
    }
}

/// The canned response of the mock backend.
pub open spec fn mock_response(
    prompt: Seq<char>,
    use_local: bool,
    model_path: Seq<char>,
    api_url: Seq<char>,
    temperature_text: Seq<char>,
    max_tokens: u32,
) -> Seq<char> {
    "【模拟输出 – 请配置真实模型】\n\n根据您的提示「"@ + prefix_chars(prompt, 30) + "…」，这里将显示模型生成的文本。\n\n当前配置:\n- "@
        + (if use_local {
        "本地模型"@
    } else {
        "API"@
    }) + ": "@ + (if use_local {
        model_path
    } else {
        api_url
    }) + "\n- 温度: "@ + temperature_text + "\n- 最大Token: "@ + crate::date::decimal(
        max_tokens as nat,
    )
}

impl MockBackend {
    /// Human-readable name shown in the UI.
    pub fn name(&self) -> (r: &'static str)
        ensures
            r@ == "模拟模型"@,
    {
        "模拟模型"
    }

    /// The mock completion: an error for a blank prompt, otherwise a canned
    /// text that quotes the first 30 characters of the prompt and the
    /// configuration (`temperature_text` is the temperature already written
    /// with two decimals).
    pub fn complete_with(
        &self,
        use_local: bool,
        model_path: &str,
        api_url: &str,
        temperature_text: &str,
        max_tokens: u32,
        prompt: &str,
    ) -> (r: Result<String, String>)
        ensures
            trim_ws(prompt@).len() == 0 ==> (r matches Err(e) && e@ == "提示词为空，请输入内容后再试"@),
            trim_ws(prompt@).len() > 0 ==> (r matches Ok(s) && s@ == mock_response(
                prompt@,
                use_local,
                model_path@,
                api_url@,
                temperature_text@,
                max_tokens,
            )),
    {
        let p = chars_of(prompt);
        if trim_chars(&p).len() == 0 {
            return Err(String::from_str("提示词为空，请输入内容后再试"));
        }
        let n = if p.len() <= 30 {
            p.len()
        } else {
            30
        };
        let head = sub_chars(&p, 0, n);
        assert(head@ =~= prefix_chars(prompt@, 30));
        let mut out = String::from_str("【模拟输出 – 请配置真实模型】\n\n根据您的提示「");
        out.append(string_of(&head).as_str());
        out.append("…」，这里将显示模型生成的文本。\n\n当前配置:\n- ");
        if use_local {
            out.append("本地模型");
        } else {
            out.append("API");
        }
        out.append(": ");
        if use_local {
            out.append(model_path);
        } else {
            out.append(api_url);
        }
        out.append("\n- 温度: ");
        out.append(temperature_text);
        out.append("\n- 最大Token: ");
        out.append(string_of(&crate::date::decimal_chars(max_tokens)).as_str());
        Ok(out)
    }
}

/// `s` with every trailing `c` removed (`str::trim_end_matches(c)`).
pub open spec fn trim_end_char(s: Seq<char>, c: char) -> Seq<char>
    decreases s.len(),
{
    if s.len() > 0 && s.last() == c {
        trim_end_char(s.drop_last(), c)
    } else {
        s
    }
}

/// `s` ends with `p`.
pub open spec fn has_suffix(s: Seq<char>, p: Seq<char>) -> bool {
    p.len() <= s.len() && s.skip(s.len() - p.len()) == p
}

/// The Ollama `/api/generate` style is chosen when the URL, without trailing
/// slashes, ends in `/api/generate`; every other URL gets the
/// OpenAI-compatible style.
pub open spec fn is_ollama_url(url: Seq<char>) -> bool {
    has_suffix(trim_end_char(url, '/'), "/api/generate"@)
}

/// The model name sent to the API: the trimmed model path, or `llama2` when
/// it is blank.
pub open spec fn model_name_of(model_path: Seq<char>) -> Seq<char> {
    if trim_ws(model_path).len() > 0 {
        trim_ws(model_path)
    } else {
        "llama2"@
    }
}

impl ApiBackend {
    /// Human-readable name shown in the UI.
    pub fn name(&self) -> (r: &'static str)
        ensures
            r@ == "HTTP API"@,
    {
        "HTTP API"
    }

    /// Whether `api_url` is an Ollama `/api/generate` endpoint (otherwise the
    /// OpenAI-compatible request body is used).
    pub fn uses_ollama(api_url: &str) -> (r: bool)
        ensures
            r == is_ollama_url(api_url@),
    {
        let u = chars_of(api_url);
        let mut hi: usize = u.len();
        assert(u@.take(hi as int) =~= u@);
        while hi > 0 && u[hi - 1] == '/'
            invariant
                hi <= u.len(),
                trim_end_char(u@, '/') == trim_end_char(u@.take(hi as int), '/'),
            decreases hi,
        {
            assert(u@.take(hi as int).drop_last() =~= u@.take(hi - 1));
            hi -= 1;
        }
        let t = sub_chars(&u, 0, hi);
        assert(t@ =~= u@.take(hi as int));
        let suffix = chars_of("/api/generate");
        if suffix.len() > t.len() {
            return false;
        }
        let tail = sub_chars(&t, t.len() - suffix.len(), t.len());
        assert(tail@ =~= t@.skip(t@.len() - suffix@.len()));
        crate::text::str_eq_chars(&tail, &suffix)
    }

    /// The model name for a request: the trimmed model path, or `llama2`.
    pub fn model_name(model_path: &str) -> (r: String)
        ensures
            r@ == model_name_of(model_path@),
    {
        let t = trim_chars(&chars_of(model_path));
        if t.len() > 0 {
            string_of(&t)
        } else {
            String::from_str("llama2")
        }
    }
}

} // verus!
