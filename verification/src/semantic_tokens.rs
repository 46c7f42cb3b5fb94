//! Semantic tokens: the server's colours, laid over those of the syntax.

use vstd::prelude::*;

use crate::doc::{greater, lesser, max_of};
use crate::effect::{effects_view, emit, no_effects, Effect, EffectView};
use crate::text::{no_text, same, texts_of};
use crate::ui::{decorations_view, only_spans, Decoration, DecorationSet};

verus! {

/// A token: where it is on its line, its type and its modifiers.
#[derive(Debug, PartialEq, Eq)]
pub struct SemanticToken {
    pub line: u32,
    pub start_char16: u32,
    pub length: u32,
    pub token_type: String,
    pub modifiers: Vec<String>,
}

pub struct TokenView {
    pub line: u32,
    pub start_char16: u32,
    pub length: u32,
    pub token_type: Seq<char>,
    pub modifiers: Seq<Seq<char>>,
}

impl View for SemanticToken {
    type V = TokenView;

    open spec fn view(&self) -> TokenView {
        TokenView {
            line: self.line,
            start_char16: self.start_char16,
            length: self.length,
            token_type: self.token_type@,
            modifiers: texts_of(self.modifiers@),
        }
    }
}

pub open spec fn tokens_view(v: Seq<SemanticToken>) -> Seq<TokenView> {
    v.map_values(|t: SemanticToken| t@)
}

/// The colour of a type; none for a type that is not painted.
pub open spec fn base_of(t: Seq<char>) -> Option<Seq<char>> {
    if t == "namespace"@ {
        Some("namespace"@)
    } else if t == "type"@ || t == "class"@ || t == "enum"@ || t == "interface"@ || t == "struct"@
        || t == "typeParameter"@ {
        Some("type"@)
    } else if t == "parameter"@ {
        Some("parameter"@)
    } else if t == "variable"@ {
        Some("variable"@)
    } else if t == "property"@ || t == "enumMember"@ {
        Some("property"@)
    } else if t == "function"@ || t == "method"@ || t == "event"@ || t == "decorator"@ {
        Some("function"@)
    } else if t == "macro"@ {
        Some("function.macro"@)
    } else if t == "keyword"@ || t == "modifier"@ {
        Some("keyword"@)
    } else if t == "comment"@ {
        Some("comment"@)
    } else if t == "string"@ {
        Some("string"@)
    } else if t == "number"@ {
        Some("number"@)
    } else if t == "regexp"@ {
        Some("string.special"@)
    } else if t == "operator"@ {
        Some("operator"@)
    } else {
        None
    }
}

/// Whether a type is that of a binding, which is a constant where it cannot be written.
pub open spec fn is_binding(t: Seq<char>) -> bool {
    t == "variable"@ || t == "property"@ || t == "parameter"@ || t == "enumMember"@
}

/// The style of a token; none for one that is not painted. A binding that cannot be written is a
/// constant, and what the standard library defines is built in.
pub open spec fn scope_of(t: Seq<char>, modifiers: Seq<Seq<char>>) -> Option<Seq<char>> {
    match base_of(t) {
        None => None,
        Some(base) => {
            let scope = if modifiers.contains("readonly"@) && is_binding(t) {
                "constant"@
            } else {
                base
            };
            Some(
                if modifiers.contains("defaultLibrary"@) {
                    scope + ".builtin"@
                } else {
                    scope
                },
            )
        },
    }
}

/// The colour of a type.
fn base_for(t: &str) -> (r: Option<&'static str>)
    ensures
        match r {
            Some(b) => base_of(t@) == Some(b@),
            None => base_of(t@) is None,
        },
{
    if same(t, "namespace") {
        Some("namespace")
    } else if same(t, "type") || same(t, "class") || same(t, "enum") || same(t, "interface")
        || same(t, "struct") || same(t, "typeParameter") {
        Some("type")
    } else if same(t, "parameter") {
        Some("parameter")
    } else if same(t, "variable") {
        Some("variable")
    } else if same(t, "property") || same(t, "enumMember") {
        Some("property")
    } else if same(t, "function") || same(t, "method") || same(t, "event") || same(t, "decorator") {
        Some("function")
    } else if same(t, "macro") {
        Some("function.macro")
    } else if same(t, "keyword") || same(t, "modifier") {
        Some("keyword")
    } else if same(t, "comment") {
        Some("comment")
    } else if same(t, "string") {
        Some("string")
    } else if same(t, "number") {
        Some("number")
    } else if same(t, "regexp") {
        Some("string.special")
    } else if same(t, "operator") {
        Some("operator")
    } else {
        None
    }
}

/// Whether a modifier is among others.
fn has_modifier(v: &[String], s: &str) -> (r: bool)
    ensures
        r == texts_of(v@).contains(s@),
{
    let mut i: usize = 0;
    while i < v.len()
        invariant
            i <= v.len(),
            forall|k: int| 0 <= k < i ==> (#[trigger] v@[k])@ != s@,
        decreases v.len() - i,
    {
        if same(v[i].as_str(), s) {
            assert(texts_of(v@)[i as int] == s@);
            return true;
        }
        i += 1;
    }
    assert forall|k: int| 0 <= k < texts_of(v@).len() implies texts_of(v@)[k] != s@ by {
        assert(v@[k]@ != s@);
    }
    false
}

/// The style of a token; empty for one that is not painted.
pub fn scope_for(token_type: &str, modifiers: &[String]) -> (r: String)
    ensures
        match scope_of(token_type@, texts_of(modifiers@)) {
            Some(s) => r@ == s && r@.len() > 0,
            None => r@.len() == 0,
        },
{
    let base: &str = match base_for(token_type) {
        Some(b) => b,
        None => return no_text(),
    };
    proof {
        lemma_bases(token_type@);
        reveal_strlit("constant");
        reveal_strlit(".builtin");
    }
    let constant: bool = has_modifier(modifiers, "readonly") && (same(token_type, "variable")
        || same(token_type, "property") || same(token_type, "parameter") || same(
        token_type,
        "enumMember",
    ));
    let mut scope: String = if constant {
        "constant".to_owned()
    } else {
        base.to_owned()
    };
    if has_modifier(modifiers, "defaultLibrary") {
        scope.push_str(".builtin");
    }
    scope
}

/// Every colour has a name.
proof fn lemma_bases(t: Seq<char>)
    ensures
        match base_of(t) {
            Some(b) => b.len() > 0,
            None => true,
        },
{
    reveal_strlit("namespace");
    reveal_strlit("type");
    reveal_strlit("parameter");
    reveal_strlit("variable");
    reveal_strlit("property");
    reveal_strlit("function");
    reveal_strlit("function.macro");
    reveal_strlit("keyword");
    reveal_strlit("comment");
    reveal_strlit("string");
    reveal_strlit("number");
    reveal_strlit("string.special");
    reveal_strlit("operator");
}

/// The positions that the first `n` tokens need: of each painted one its start and its end.
pub open spec fn asked(tokens: Seq<TokenView>, n: int) -> Seq<(u32, u32)>
    decreases n,
{
    if n <= 0 {
        Seq::empty()
    } else {
        let t = tokens[n - 1];
        let p = asked(tokens, n - 1);
        if scope_of(t.token_type, t.modifiers) is None {
            p
        } else {
            p.push((t.line, t.start_char16)).push(
                (t.line, lesser(t.start_char16 + t.length, u32::MAX as int) as u32),
            )
        }
    }
}

/// The ranges of the first `n` tokens, each at least one character.
pub open spec fn painted(tokens: Seq<TokenView>, at: Seq<usize>, n: int) -> Seq<
    (int, int, Seq<char>),
>
    decreases n,
{
    if n <= 0 {
        Seq::empty()
    } else {
        let t = tokens[n - 1];
        let p = painted(tokens, at, n - 1);
        match scope_of(t.token_type, t.modifiers) {
            None => p,
            Some(scope) => {
                let k = p.len() as int;
                p.push((at[2 * k] as int, greater(at[2 * k + 1] as int, at[2 * k] + 1), scope))
            },
        }
    }
}

proof fn lemma_painted(tokens: Seq<TokenView>, at: Seq<usize>, n: int)
    requires
        0 <= n <= tokens.len(),
    ensures
        asked(tokens, n).len() == 2 * painted(tokens, at, n).len(),
    decreases n,
{
    if n > 0 {
        lemma_painted(tokens, at, n - 1);
    }
}

proof fn lemma_asked_grows(tokens: Seq<TokenView>, i: int, n: int)
    requires
        0 <= i <= n <= tokens.len(),
    ensures
        asked(tokens, i).len() <= asked(tokens, n).len(),
    decreases n,
{
    if i < n {
        lemma_asked_grows(tokens, i, n - 1);
    }
}

/// The semantic tokens of documents.
pub struct SemanticTokensPlugin;

impl SemanticTokensPlugin {
    /// The positions that tokens need, in order.
    pub fn positions(tokens: &[SemanticToken]) -> (r: Vec<(u32, u32)>)
        ensures
            r@ == asked(tokens_view(tokens@), tokens@.len() as int),
    {
        let mut out: Vec<(u32, u32)> = Vec::new();
        let mut i: usize = 0;
        assert(out@ =~= Seq::empty());
        while i < tokens.len()
            invariant
                i <= tokens.len(),
                out@ == asked(tokens_view(tokens@), i as int),
            decreases tokens.len() - i,
        {
            let t: &SemanticToken = &tokens[i];
            assert(tokens_view(tokens@)[i as int] == t@);
            let scope: String = scope_for(t.token_type.as_str(), t.modifiers.as_slice());
            if !scope.as_str().is_empty() {
                out.push((t.line, t.start_char16));
                let end: u32 = if t.length > u32::MAX - t.start_char16 {
                    u32::MAX
                } else {
                    t.start_char16 + t.length
                };
                out.push((t.line, end));
            }
            i += 1;
        }
        out
    }

    /// Paint a document's tokens. `at` are their positions in the text.
    pub fn publish(tokens: &[SemanticToken], at: &[usize]) -> (r: Vec<Effect>)
        requires
            at@.len() == asked(tokens_view(tokens@), tokens@.len() as int).len(),
            forall|i: int| 0 <= i < at@.len() ==> (#[trigger] at@[i]) < usize::MAX,
        ensures
            effects_view(r@) == seq![
                if tokens@.len() == 0 {
                    EffectView::ClearDecorations("lsp.semantic"@)
                } else {
                    EffectView::SetDecorations {
                        layer: "lsp.semantic"@,
                        set: only_spans(
                            painted(tokens_view(tokens@), at@, tokens@.len() as int),
                        ),
                    }
                },
            ],
    {
        let mut out: Vec<Effect> = no_effects();
        if tokens.len() == 0 {
            emit(&mut out, Effect::ClearDecorations("lsp.semantic".to_owned()));
            return out;
        }
        let ghost tv = tokens_view(tokens@);
        let mut spans: Vec<Decoration> = Vec::new();
        let mut i: usize = 0;
        assert(decorations_view(spans@) =~= Seq::empty());
        while i < tokens.len()
            invariant
                i <= tokens.len(),
                tv == tokens_view(tokens@),
                at.len() == asked(tv, tokens@.len() as int).len(),
                forall|j: int| 0 <= j < at@.len() ==> (#[trigger] at@[j]) < usize::MAX,
                decorations_view(spans@) == painted(tv, at@, i as int),
                spans@.len() == painted(tv, at@, i as int).len(),
            decreases tokens.len() - i,
        {
            let t: &SemanticToken = &tokens[i];
            assert(tv[i as int] == t@);
            let scope: String = scope_for(t.token_type.as_str(), t.modifiers.as_slice());
            if !scope.as_str().is_empty() {
                proof {
                    lemma_painted(tv, at@, i + 1);
                    lemma_asked_grows(tv, i + 1, tokens@.len() as int);
                }
                let k: usize = spans.len();
                let start: usize = at[2 * k];
                let end: usize = max_of(at[2 * k + 1], start + 1);
                let ghost before = spans@;
                spans.push(Decoration { start, end, style: scope });
                assert(decorations_view(spans@) =~= decorations_view(before).push(
                    (start as int, end as int, scope@),
                ));
            }
            i += 1;
        }
        emit(
            &mut out,
            Effect::SetDecorations {
                layer: "lsp.semantic".to_owned(),
                set: DecorationSet::spans(spans),
            },
        );
        out
    }
}

/// A token that has a style asks for its start and its end, and is painted between the positions found
/// for them, at least one character long, in its style; one without a style is passed over.
pub proof fn tokens_are_painted_at_their_places(
    tokens: Seq<TokenView>,
    at: Seq<usize>,
    n: int,
    i: int,
)
    requires
        0 <= i < n <= tokens.len(),
        scope_of(tokens[i].token_type, tokens[i].modifiers) is Some,
        tokens[i].start_char16 + tokens[i].length <= u32::MAX,
    ensures
        ({
            let t = tokens[i];
            let k = painted(tokens, at, i).len() as int;
            let p = painted(tokens, at, n)[k];
            &&& asked(tokens, n).len() == 2 * painted(tokens, at, n).len()
            &&& k < painted(tokens, at, n).len()
            &&& asked(tokens, n)[2 * k] == (t.line, t.start_char16)
            &&& asked(tokens, n)[2 * k + 1] == (t.line, (t.start_char16 + t.length) as u32)
            &&& p.0 == at[2 * k]
            &&& p.1 > p.0
            &&& at[2 * k + 1] > at[2 * k] ==> p.1 == at[2 * k + 1]
            &&& Some(p.2) == scope_of(t.token_type, t.modifiers)
        }),
    decreases n,
{
    lemma_painted(tokens, at, i);
    lemma_painted(tokens, at, n - 1);
    lemma_painted(tokens, at, n);
    if i < n - 1 {
        tokens_are_painted_at_their_places(tokens, at, n - 1, i);
    }
}

/// A binding that cannot be written is a constant, whatever it is a binding of; what the standard
/// library defines has its own style; a type that is not known has none.
pub proof fn modifiers_change_the_style(t: Seq<char>, modifiers: Seq<Seq<char>>)
    ensures
        t == "variable"@ || t == "parameter"@ || t == "property"@ ==> modifiers.contains(
            "readonly"@,
        ) && !modifiers.contains("defaultLibrary"@) ==> scope_of(t, modifiers) == Some(
            "constant"@,
        ),
        base_of(t) is Some && !modifiers.contains("readonly"@) && !modifiers.contains(
            "defaultLibrary"@,
        ) ==> scope_of(t, modifiers) == base_of(t),
        base_of(t) is Some && !modifiers.contains("readonly"@) && modifiers.contains(
            "defaultLibrary"@,
        ) ==> scope_of(t, modifiers) == Some(base_of(t).unwrap() + ".builtin"@),
        base_of(t) is None ==> scope_of(t, modifiers) is None,
{
    reveal_strlit("namespace");
    reveal_strlit("type");
    reveal_strlit("class");
    reveal_strlit("enum");
    reveal_strlit("interface");
    reveal_strlit("struct");
    reveal_strlit("typeParameter");
    reveal_strlit("parameter");
    reveal_strlit("variable");
    reveal_strlit("property");
}

} // verus!
