use vstd::prelude::*;

verus! {

#[verifier::external_type_specification]
#[verifier::external_body]
pub struct ExRegex(regex::Regex);

#[verifier::external_type_specification]
#[verifier::external_body]
pub struct ExRegexError(regex::Error);

/// Whether `regex::Regex::new` accepts `pattern`: a matter of its syntax
/// and of the builder's default limits alone.
pub uninterp spec fn regex_compiles(pattern: Seq<char>) -> bool;

/// What `is_match` answers on `text` for the regex compiled from `pattern`.
pub uninterp spec fn regex_matches(pattern: Seq<char>, text: Seq<char>) -> bool;

/// A compiled regular expression together with the source it was compiled
/// from. `Pattern::compile` is the only way to build one, so the two always
/// belong together.
pub struct Pattern {
    source: String,
    re: regex::Regex,
}

impl View for Pattern {
    type V = Seq<char>;

    closed spec fn view(&self) -> Seq<char> {
        self.source@
    }
}

impl Pattern {
    /// Relies on `regex::Regex::new`: it succeeds exactly on the sources it
    /// accepts, and the regex it returns is the one compiled from `source`.
    #[verifier::external_body]
    fn compile(source: &str) -> (r: Result<Pattern, regex::Error>)
        ensures
            r is Ok <==> regex_compiles(source@),
            r matches Ok(p) ==> p@ == source@,
    {
        regex::Regex::new(source).map(|re| Pattern { source: source.to_string(), re })
    }

    /// Relies on `regex::Regex::is_match`: whether the regex matches anywhere
    /// in `text`, for the regex that `compile` built from this source.
    #[verifier::external_body]
    fn is_match(&self, text: &str) -> (r: bool)
        ensures
            r == regex_matches(self@, text@),
    {
        self.re.is_match(text)
    }
}

/// Unicode's `White_Space` property.
pub open spec fn is_white_space(c: char) -> bool {
    let v = c as u32;
    ||| 0x9 <= v <= 0xD
    ||| v == 0x20
    ||| v == 0x85
    ||| v == 0xA0
    ||| v == 0x1680
    ||| 0x2000 <= v <= 0x200A
    ||| v == 0x2028
    ||| v == 0x2029
    ||| v == 0x202F
    ||| v == 0x205F
    ||| v == 0x3000
}

pub open spec fn trim_start_spec(s: Seq<char>) -> Seq<char>
    decreases s.len(),
{
    if s.len() > 0 && is_white_space(s[0]) {
        trim_start_spec(s.drop_first())
    } else {
        s
    }
}

pub open spec fn trim_end_spec(s: Seq<char>) -> Seq<char>
    decreases s.len(),
{
    if s.len() > 0 && is_white_space(s.last()) {
        trim_end_spec(s.drop_last())
    } else {
        s
    }
}

/// `s` without its leading and trailing white space.
pub open spec fn trim_spec(s: Seq<char>) -> Seq<char> {
    trim_end_spec(trim_start_spec(s))
}

/// Relies on `str::trim`: removes leading and trailing characters that have
/// the `White_Space` property.
#[verifier::external_body]
fn trim(s: &str) -> (r: &str)
    ensures
        r@ == trim_spec(s@),
{
    s.trim()
}

/// Some pattern of `patterns` matches in `text`.
pub open spec fn any_matches(patterns: Seq<Seq<char>>, text: Seq<char>) -> bool {
    exists|i: int| 0 <= i < patterns.len() && #[trigger] regex_matches(patterns[i], text)
}

/// The line, trimmed, is not empty and has the shape of an idle shell prompt.
pub open spec fn is_prompt_line(prompts: Seq<Seq<char>>, line: Seq<char>) -> bool {
    trim_spec(line).len() > 0 && any_matches(prompts, trim_spec(line))
}

/// A session needs attention when its cursor line is not an idle prompt and
/// a question, confirmation or password request shows near the cursor.
pub open spec fn attention_spec(
    attention: Seq<Seq<char>>,
    prompts: Seq<Seq<char>>,
    cursor_line: Seq<char>,
    nearby_text: Seq<char>,
) -> bool {
    !is_prompt_line(prompts, cursor_line) && any_matches(attention, nearby_text)
}

/// The sources of `patterns`.
pub open spec fn sources(patterns: Seq<Pattern>) -> Seq<Seq<char>> {
    patterns.map_values(|p: Pattern| p@)
}

/// Whether any of `patterns` matches in `text`.
pub fn matches_any(patterns: &Vec<Pattern>, text: &str) -> (r: bool)
    ensures
        r == any_matches(sources(patterns@), text@),
{
    let mut i: usize = 0;
    while i < patterns.len()
        invariant
            i <= patterns.len(),
            forall|j: int| 0 <= j < i ==> !regex_matches(#[trigger] patterns@[j]@, text@),
        decreases patterns.len() - i,
    {
        if patterns[i].is_match(text) {
            assert(sources(patterns@)[i as int] == patterns@[i as int]@);
            return true;
        }
        i = i + 1;
    }
    assert forall|j: int| 0 <= j < sources(patterns@).len() implies !#[trigger] regex_matches(
        sources(patterns@)[j],
        text@,
    ) by {
        assert(sources(patterns@)[j] == patterns@[j]@);
    }
    false
}

/// The patterns of `list` that compile, in order.
pub open spec fn compiling(list: Seq<Seq<char>>) -> Seq<Seq<char>> {
    list.filter(|p: Seq<char>| regex_compiles(p))
}

/// Compiles each of `list` in order, keeping those that compile.
pub fn compile_all(list: &Vec<&str>) -> (r: Vec<Pattern>)
    ensures
        sources(r@) == compiling(list@.map_values(|s: &str| s@)),
{
    let ghost all = list@.map_values(|s: &str| s@);
    let mut out: Vec<Pattern> = Vec::new();
    let mut i: usize = 0;
    while i < list.len()
        invariant
            i <= list.len(),
            all == list@.map_values(|s: &str| s@),
            sources(out@) == compiling(all.subrange(0, i as int)),
        decreases list.len() - i,
    {
        let ghost before = out@;
        match Pattern::compile(list[i]) {
            Ok(p) => {
                out.push(p);
            },
            Err(_) => {},
        }
        proof {
            reveal(Seq::filter);
            assert(all.subrange(0, i + 1).drop_last() =~= all.subrange(0, i as int));
            assert(all.subrange(0, i + 1).last() == list@[i as int]@);
            assert(compiling(all.subrange(0, i + 1)) == (if regex_compiles(list@[i as int]@) {
                compiling(all.subrange(0, i as int)).push(list@[i as int]@)
            } else {
                compiling(all.subrange(0, i as int))
            }));
            if regex_compiles(list@[i as int]@) {
                assert(out@ =~= before.push(out@.last()));
                assert(sources(out@) =~= sources(before).push(list@[i as int]@));
            } else {
                assert(out@ =~= before);
            }
        }
        i = i + 1;
    }
    assert(all.subrange(0, list.len() as int) =~= all);
    out
}


/// Question, confirmation and password prompts, case-insensitive.
pub open spec fn attention_sources() -> Seq<Seq<char>> {
    seq![
        r"(?i)\[y/n\]"@,
        r"(?i)\(y/n\)"@,
        r"(?i)password:"@,
        r"(?i)allow\?"@,
        r"(?i)proceed\?"@,
        r"(?i)continue\?"@,
        r"(?i)do you want to"@,
        r"(?i)are you sure"@,
        r"(?i)\[yes/no\]"@,
        r"(?i)Esc to cancel"@,
    ]
}

/// Shapes of an idle shell prompt: a lone prompt character, a styled
/// prompt glyph before a word, a line ending in `$` or `%`, a user@host
/// prefix.
pub open spec fn prompt_sources() -> Seq<Seq<char>> {
    seq![
        r"^\s*[\$%#>]\s*$"@,
        r"➜\s+\S"@,
        r"\$\s*$"@,
        r"%\s*$"@,
        r"^\s*\w+@"@,
    ]
}

/// Classifies live terminal text: is a session blocked on a question?
pub struct Watchdog {
    patterns: Vec<Pattern>,
    prompt_patterns: Vec<Pattern>,
}

impl Watchdog {
    /// The sources of the attention patterns in use.
    pub closed spec fn attention_patterns(&self) -> Seq<Seq<char>> {
        sources(self.patterns@)
    }

    /// The sources of the prompt shapes in use.
    pub closed spec fn prompt_patterns(&self) -> Seq<Seq<char>> {
        sources(self.prompt_patterns@)
    }

    /// A watchdog with every pattern of the two fixed lists that compiles.
    pub fn new() -> (r: Self)
        ensures
            r.attention_patterns() == compiling(attention_sources()),
            r.prompt_patterns() == compiling(prompt_sources()),
    {
        let attention: Vec<&str> = vec![
            r"(?i)\[y/n\]",
            r"(?i)\(y/n\)",
            r"(?i)password:",
            r"(?i)allow\?",
            r"(?i)proceed\?",
            r"(?i)continue\?",
            r"(?i)do you want to",
            r"(?i)are you sure",
            r"(?i)\[yes/no\]",
            r"(?i)Esc to cancel",
        ];
        let prompts: Vec<&str> = vec![
            r"^\s*[\$%#>]\s*$",
            r"➜\s+\S",
            r"\$\s*$",
            r"%\s*$",
            r"^\s*\w+@",
        ];
        assert(attention@.map_values(|s: &str| s@) =~= attention_sources());
        assert(prompts@.map_values(|s: &str| s@) =~= prompt_sources());
        Watchdog { patterns: compile_all(&attention), prompt_patterns: compile_all(&prompts) }
    }

    /// Whether the session whose cursor sits on `cursor_line`, with
    /// `nearby_text` around the cursor, is waiting for the user.
    pub fn needs_attention(&self, cursor_line: &str, nearby_text: &str) -> (r: bool)
        ensures
            r == attention_spec(self.attention_patterns(), self.prompt_patterns(), cursor_line@, nearby_text@),
    {
        if self.is_shell_prompt(cursor_line) {
            return false;
        }
        matches_any(&self.patterns, nearby_text)
    }

    fn is_shell_prompt(&self, line: &str) -> (r: bool)
        ensures
            r == is_prompt_line(self.prompt_patterns(), line@),
    {
        let trimmed = trim(line);
        !trimmed.is_empty() && matches_any(&self.prompt_patterns, trimmed)
    }
}

/// A cursor line with the shape of an idle prompt suppresses attention,
/// whatever the text around it.
pub proof fn lemma_prompt_suppresses_attention(
    attention: Seq<Seq<char>>,
    prompts: Seq<Seq<char>>,
    cursor_line: Seq<char>,
    nearby_text: Seq<char>,
)
    requires
        is_prompt_line(prompts, cursor_line),
    ensures
        !attention_spec(attention, prompts, cursor_line, nearby_text),
{
}

} // verus!
