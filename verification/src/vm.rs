//! Values of the Aura virtual machine and the rules it applies to them:
//! binary operators, pattern matching, string interpolation, the text of
//! user-interface trees, and which plugins a program asks for.
use vstd::prelude::*;
use crate::ai_opt::{int_text, push_int};
use crate::ast::{Pattern, Program, Stmt};
use crate::error::Span;
use crate::text::{chars_of, find, push_all, slice, str_eq, to_string};

verus! {

broadcast use vstd::std_specs::vec::axiom_vec_decreases_to_view;

/// The machine stopped on request.
#[derive(Debug)]
pub struct AvmTerminated;

/// An event of the machine.
#[derive(Clone, Debug)]
pub enum AvmEvent {
    Promoted { cell_id: u64 },
}

/// A node of a user-interface tree: its kind, its properties in order, and
/// its children.
pub struct UiNode {
    pub kind: String,
    pub props: Vec<(String, String)>,
    pub children: Vec<UiNode>,
}

/// A value of the machine. A style (or a record) maps field names, in
/// ascending order, to values.
pub enum AvmValue {
    Int(i64),
    Bool(bool),
    Str(String),
    Style(Vec<(String, AvmValue)>),
    Ui(UiNode),
    Unit,
}

// ---------------------------------------------------------------------------
// Statements
// ---------------------------------------------------------------------------

/// The name of a statement's kind.
pub open spec fn stmt_kind(s: Stmt) -> Seq<char> {
    match s {
        Stmt::Import(_) => "Import"@,
        Stmt::MacroDef(_) => "MacroDef"@,
        Stmt::TypeAlias(_) => "TypeAlias"@,
        Stmt::TraitDef(_) => "TraitDef"@,
        Stmt::RecordDef(_) => "RecordDef"@,
        Stmt::EnumDef(_) => "EnumDef"@,
        Stmt::StrandDef(_) => "StrandDef"@,
        Stmt::CellDef(_) => "CellDef"@,
        Stmt::ExternCell(_) => "ExternCell"@,
        Stmt::UnsafeBlock(_) => "UnsafeBlock"@,
        Stmt::Layout(_) => "Layout"@,
        Stmt::Render(_) => "Render"@,
        Stmt::Prop(_) => "Prop"@,
        Stmt::Assign(_) => "Assign"@,
        Stmt::If(_) => "If"@,
        Stmt::Match(_) => "Match"@,
        Stmt::While(_) => "While"@,
        Stmt::Requires(_) => "Requires"@,
        Stmt::Ensures(_) => "Ensures"@,
        Stmt::Assert(_) => "Assert"@,
        Stmt::Assume(_) => "Assume"@,
        Stmt::MacroCall(_) => "MacroCall"@,
        Stmt::FlowBlock(_) => "FlowBlock"@,
        Stmt::ExprStmt(_) => "ExprStmt"@,
    }
}

/// The name of a statement's kind (`stmt_kind_name`).
pub fn stmt_kind_name(stmt: &Stmt) -> (r: &'static str)
    ensures
        r@ == stmt_kind(*stmt),
{
    match stmt {
        Stmt::Import(_) => "Import",
        Stmt::MacroDef(_) => "MacroDef",
        Stmt::TypeAlias(_) => "TypeAlias",
        Stmt::TraitDef(_) => "TraitDef",
        Stmt::RecordDef(_) => "RecordDef",
        Stmt::EnumDef(_) => "EnumDef",
        Stmt::StrandDef(_) => "StrandDef",
        Stmt::CellDef(_) => "CellDef",
        Stmt::ExternCell(_) => "ExternCell",
        Stmt::UnsafeBlock(_) => "UnsafeBlock",
        Stmt::Layout(_) => "Layout",
        Stmt::Render(_) => "Render",
        Stmt::Prop(_) => "Prop",
        Stmt::Assign(_) => "Assign",
        Stmt::If(_) => "If",
        Stmt::Match(_) => "Match",
        Stmt::While(_) => "While",
        Stmt::Requires(_) => "Requires",
        Stmt::Ensures(_) => "Ensures",
        Stmt::Assert(_) => "Assert",
        Stmt::Assume(_) => "Assume",
        Stmt::MacroCall(_) => "MacroCall",
        Stmt::FlowBlock(_) => "FlowBlock",
        Stmt::ExprStmt(_) => "ExprStmt",
    }
}

/// The span of a statement.
pub open spec fn span_of_stmt(s: Stmt) -> Span {
    match s {
        Stmt::Import(x) => x.span,
        Stmt::MacroDef(x) => x.span,
        Stmt::MacroCall(x) => x.span,
        Stmt::TypeAlias(x) => x.span,
        Stmt::TraitDef(x) => x.span,
        Stmt::RecordDef(x) => x.span,
        Stmt::EnumDef(x) => x.span,
        Stmt::StrandDef(x) => x.span,
        Stmt::CellDef(x) => x.span,
        Stmt::ExternCell(x) => x.span,
        Stmt::UnsafeBlock(x) => x.span,
        Stmt::Assign(x) => x.span,
        Stmt::If(x) => x.span,
        Stmt::Match(x) => x.span,
        Stmt::While(x) => x.span,
        Stmt::Requires(x) => x.span,
        Stmt::Ensures(x) => x.span,
        Stmt::Assert(x) => x.span,
        Stmt::Assume(x) => x.span,
        Stmt::FlowBlock(x) => x.span,
        Stmt::Layout(x) => x.span,
        Stmt::Render(x) => x.span,
        Stmt::Prop(x) => x.span,
        Stmt::ExprStmt(e) => e.span,
    }
}

/// The span of a statement (`stmt_span`).
pub fn stmt_span(stmt: &Stmt) -> (r: Span)
    ensures
        r == span_of_stmt(*stmt),
{
    match stmt {
        Stmt::Import(s) => s.span,
        Stmt::MacroDef(s) => s.span,
        Stmt::MacroCall(s) => s.span,
        Stmt::TypeAlias(s) => s.span,
        Stmt::TraitDef(s) => s.span,
        Stmt::RecordDef(s) => s.span,
        Stmt::EnumDef(s) => s.span,
        Stmt::StrandDef(s) => s.span,
        Stmt::CellDef(s) => s.span,
        Stmt::ExternCell(s) => s.span,
        Stmt::UnsafeBlock(s) => s.span,
        Stmt::Assign(s) => s.span,
        Stmt::If(s) => s.span,
        Stmt::Match(s) => s.span,
        Stmt::While(s) => s.span,
        Stmt::Requires(s) => s.span,
        Stmt::Ensures(s) => s.span,
        Stmt::Assert(s) => s.span,
        Stmt::Assume(s) => s.span,
        Stmt::FlowBlock(s) => s.span,
        Stmt::Layout(s) => s.span,
        Stmt::Render(s) => s.span,
        Stmt::Prop(s) => s.span,
        Stmt::ExprStmt(e) => e.span,
    }
}

// ---------------------------------------------------------------------------
// Plugins
// ---------------------------------------------------------------------------

/// The plugin an import asks for: `aura_ai`, `aura_iot` or `aura_lumina`
/// as the last name, or `aura::ai`, `aura::iot`, `aura::lumina`.
pub open spec fn plugin_of(path: Seq<Seq<char>>) -> Option<Seq<char>> {
    let last = if path.len() == 0 { seq![] } else { path.last() };
    if last == "aura_ai"@ {
        Some("aura-ai"@)
    } else if last == "aura_iot"@ {
        Some("aura-iot"@)
    } else if last == "aura_lumina"@ {
        Some("aura-lumina"@)
    } else if path.len() == 2 && path[0] == "aura"@ && last == "ai"@ {
        Some("aura-ai"@)
    } else if path.len() == 2 && path[0] == "aura"@ && last == "iot"@ {
        Some("aura-iot"@)
    } else if path.len() == 2 && path[0] == "aura"@ && last == "lumina"@ {
        Some("aura-lumina"@)
    } else {
        None
    }
}

/// The names of an import's path.
pub open spec fn import_path(s: Stmt) -> Option<Seq<Seq<char>>> {
    match s {
        Stmt::Import(i) => Some(i.path@.map_values(|n: crate::ast::Ident| n.node@)),
        _ => None,
    }
}

/// The plugin a statement asks for, if it is an import that asks for one.
pub open spec fn import_plugin(s: Stmt) -> Option<Seq<char>> {
    match import_path(s) {
        Some(path) => plugin_of(path),
        None => None,
    }
}

/// Whether some import of the program asks for the plugin `p`.
pub open spec fn requests(program: Program, p: Seq<char>) -> bool {
    exists|k: int| 0 <= k < program.stmts.len() && #[trigger] import_plugin(program.stmts@[k]) == Some(p)
}

/// The plugins a program asks for, each once, in ascending order.
pub open spec fn requested_plugins(program: Program) -> Seq<Seq<char>> {
    let a = if requests(program, "aura-ai"@) { seq!["aura-ai"@] } else { seq![] };
    let b = if requests(program, "aura-iot"@) { seq!["aura-iot"@] } else { seq![] };
    let c = if requests(program, "aura-lumina"@) { seq!["aura-lumina"@] } else { seq![] };
    a + b + c
}

/// A plugin as a number: none is 0, then `aura-ai`, `aura-iot`,
/// `aura-lumina`.
pub open spec fn plugin_code(p: Option<Seq<char>>) -> u8 {
    match p {
        Some(p) => if p == "aura-ai"@ {
            1u8
        } else if p == "aura-iot"@ {
            2u8
        } else {
            3u8
        },
        None => 0u8,
    }
}

fn plugin_of_import(i: &crate::ast::ImportStmt) -> (r: u8)
    ensures
        r == plugin_code(plugin_of(i.path@.map_values(|n: crate::ast::Ident| n.node@))),
{
    let n = i.path.len();
    let ghost path = i.path@.map_values(|x: crate::ast::Ident| x.node@);
    let last: &str = if n == 0 {
        ""
    } else {
        i.path[n - 1].node.as_str()
    };
    proof {
        reveal_strlit("");
        reveal_strlit("aura-ai");
        reveal_strlit("aura-iot");
        reveal_strlit("aura-lumina");
        assert("aura-ai"@[5] != "aura-iot"@[5]);
        assert("aura-ai"@.len() != "aura-lumina"@.len());
        assert("aura-iot"@.len() != "aura-lumina"@.len());
        if n == 0 {
            assert(last@ == Seq::<char>::empty());
        }
    }
    let first_is_aura = n == 2 && str_eq(i.path[0].node.as_str(), "aura");
    if str_eq(last, "aura_ai") {
        1
    } else if str_eq(last, "aura_iot") {
        2
    } else if str_eq(last, "aura_lumina") {
        3
    } else if first_is_aura && str_eq(last, "ai") {
        1
    } else if first_is_aura && str_eq(last, "iot") {
        2
    } else if first_is_aura && str_eq(last, "lumina") {
        3
    } else {
        0
    }
}

/// The plugins a program asks for, each once, in ascending order
/// (`detect_requested_plugins`).
pub fn detect_requested_plugins(program: &Program) -> (r: Vec<String>)
    ensures
        r@.map_values(|s: String| s@) == requested_plugins(*program),
{
    let mut want = [false, false, false];
    let mut k: usize = 0;
    while k < program.stmts.len()
        invariant
            k <= program.stmts.len(),
            want[0] == exists|j: int| 0 <= j < k && #[trigger] import_plugin(program.stmts@[j]) == Some("aura-ai"@),
            want[1] == exists|j: int| 0 <= j < k && #[trigger] import_plugin(program.stmts@[j]) == Some("aura-iot"@),
            want[2] == exists|j: int| 0 <= j < k && #[trigger] import_plugin(program.stmts@[j]) == Some("aura-lumina"@),
        decreases program.stmts.len() - k,
    {
        let p: u8 = match &program.stmts[k] {
            Stmt::Import(i) => plugin_of_import(i),
            _ => 0,
        };
        proof {
            reveal_strlit("aura-ai");
            reveal_strlit("aura-iot");
            reveal_strlit("aura-lumina");
            assert("aura-ai"@[5] != "aura-iot"@[5]);
            assert("aura-ai"@.len() != "aura-lumina"@.len());
            assert("aura-iot"@.len() != "aura-lumina"@.len());
            assert(p == plugin_code(import_plugin(program.stmts@[k as int])));
        }
        if p == 1 {
            want[0] = true;
        } else if p == 2 {
            want[1] = true;
        } else if p == 3 {
            want[2] = true;
        }
        k = k + 1;
    }
    let mut out: Vec<String> = Vec::new();
    if want[0] {
        out.push(String::from_str("aura-ai"));
    }
    if want[1] {
        out.push(String::from_str("aura-iot"));
    }
    if want[2] {
        out.push(String::from_str("aura-lumina"));
    }
    assert(out@.map_values(|s: String| s@) =~= requested_plugins(*program));
    out
}

// ---------------------------------------------------------------------------
// Values
// ---------------------------------------------------------------------------

/// The names of the user-interface constructors.
pub open spec fn ui_constructor(name: Seq<char>) -> bool {
    name == "App"@ || name == "Window"@ || name == "VStack"@ || name == "HStack"@ || name == "Text"@
        || name == "TextInput"@ || name == "Button"@ || name == "Spacer"@ || name == "Rect"@
}

/// Whether a call builds a user-interface node: any call with a trailing
/// block, and the user-interface constructors.
pub fn is_ui_call(name: &str, has_trailing: bool) -> (r: bool)
    ensures
        r == (has_trailing || ui_constructor(name@)),
{
    if has_trailing {
        return true;
    }
    str_eq(name, "App") || str_eq(name, "Window") || str_eq(name, "VStack") || str_eq(name, "HStack") || str_eq(
        name,
        "Text",
    ) || str_eq(name, "TextInput") || str_eq(name, "Button") || str_eq(name, "Spacer") || str_eq(name, "Rect")
}

/// Whether a match arm's pattern matches a value: a wildcard matches
/// anything, a literal an equal integer or string; a constructor pattern
/// matches nothing, the machine having no enum values.
pub open spec fn matches_value(p: Pattern, v: AvmValue) -> bool {
    match (p, v) {
        (Pattern::Wildcard { .. }, _) => true,
        (Pattern::IntLit { value, .. }, AvmValue::Int(i)) => i == value as i64,
        (Pattern::StringLit { value, .. }, AvmValue::Str(s)) => s@ == value@,
        _ => false,
    }
}

/// Whether a match arm's pattern matches a value (`pat_matches_value`).
pub fn pat_matches_value(p: &Pattern, v: &AvmValue) -> (r: bool)
    ensures
        r == matches_value(*p, *v),
{
    match (p, v) {
        (Pattern::Wildcard { .. }, _) => true,
        (Pattern::IntLit { value, .. }, AvmValue::Int(i)) => *i == *value as i64,
        (Pattern::StringLit { value, .. }, AvmValue::Str(s)) => str_eq(s.as_str(), value.as_str()),
        _ => false,
    }
}

/// The text of a value as a property of a user-interface node.
pub open spec fn prop_text(v: AvmValue) -> Seq<char> {
    match v {
        AvmValue::Int(i) => int_text(i as int),
        AvmValue::Bool(b) => if b { "true"@ } else { "false"@ },
        AvmValue::Str(s) => s@,
        AvmValue::Style(_) => "<style>"@,
        AvmValue::Ui(n) => "<"@ + n.kind@ + ">"@,
        AvmValue::Unit => "Unit"@,
    }
}

/// The text of a value as a property of a user-interface node
/// (`avm_value_to_prop_string`).
pub fn avm_value_to_prop_string(v: &AvmValue) -> (r: String)
    ensures
        r@ == prop_text(*v),
{
    match v {
        AvmValue::Int(i) => {
            let mut out: Vec<char> = Vec::new();
            push_int(&mut out, *i);
            assert(out@ =~= int_text(*i as int));
            to_string(&out)
        },
        AvmValue::Bool(b) => if *b {
            String::from_str("true")
        } else {
            String::from_str("false")
        },
        AvmValue::Str(s) => s.clone(),
        AvmValue::Style(_) => String::from_str("<style>"),
        AvmValue::Ui(n) => {
            let mut s = String::from_str("<");
            s.append(n.kind.as_str());
            s.append(">");
            s
        },
        AvmValue::Unit => String::from_str("Unit"),
    }
}

/// The text a value takes inside an interpolated string.
pub open spec fn interpolation_text(v: AvmValue) -> Seq<char> {
    match v {
        AvmValue::Int(i) => int_text(i as int),
        AvmValue::Bool(b) => if b { "true"@ } else { "false"@ },
        AvmValue::Str(s) => s@,
        AvmValue::Style(_) => "<style>"@,
        AvmValue::Ui(_) => "<ui>"@,
        AvmValue::Unit => "()"@,
    }
}

fn interpolation_text_of(v: &AvmValue) -> (r: Vec<char>)
    ensures
        r@ == interpolation_text(*v),
{
    match v {
        AvmValue::Int(i) => {
            let mut out: Vec<char> = Vec::new();
            push_int(&mut out, *i);
            assert(out@ =~= int_text(*i as int));
            out
        },
        AvmValue::Bool(b) => if *b {
            chars_of("true")
        } else {
            chars_of("false")
        },
        AvmValue::Str(s) => chars_of(s.as_str()),
        AvmValue::Style(_) => chars_of("<style>"),
        AvmValue::Ui(_) => chars_of("<ui>"),
        AvmValue::Unit => chars_of("()"),
    }
}

/// The value last bound to `key`.
pub open spec fn env_lookup(env: Seq<(String, AvmValue)>, key: Seq<char>) -> Option<AvmValue>
    decreases env.len(),
{
    if env.len() == 0 {
        None
    } else if env.last().0@ == key {
        Some(env.last().1)
    } else {
        env_lookup(env.drop_last(), key)
    }
}

/// `s` with every `{name}` of a bound name replaced by the text of its
/// value; unknown names and an unclosed `{` stay as they are.
pub open spec fn interpolated(env: Seq<(String, AvmValue)>, s: Seq<char>) -> Seq<char>
    decreases s.len(),
{
    match find(s, '{') {
        None => s,
        Some(o) => if 0 <= o < s.len() {
            let after = s.subrange(o + 1, s.len() as int);
            s.subrange(0, o) + match find(after, '}') {
                Some(c) => if 0 <= c < after.len() {
                    let key = after.subrange(0, c);
                    (match env_lookup(env, key) {
                        Some(v) => interpolation_text(v),
                        None => seq!['{'] + key + seq!['}'],
                    }) + interpolated(env, after.subrange(c + 1, after.len() as int))
                } else {
                    seq!['{'] + interpolated(env, after)
                },
                None => seq!['{'] + interpolated(env, after),
            }
        } else {
            s
        },
    }
}

fn env_find(env: &Vec<(String, AvmValue)>, key: &Vec<char>) -> (r: Option<usize>)
    ensures
        match env_lookup(env@, key@) {
            Some(v) => r matches Some(i) && i < env.len() && env@[i as int].1 == v,
            None => r is None,
        },
{
    let mut k: usize = env.len();
    let ghost full = env@;
    assert(full.subrange(0, k as int) =~= full);
    while k > 0
        invariant
            k <= env.len(),
            full == env@,
            env_lookup(full, key@) == env_lookup(full.subrange(0, k as int), key@),
        decreases k,
    {
        let ghost pre = full.subrange(0, k as int);
        assert(pre.drop_last() =~= full.subrange(0, k - 1));
        let name = chars_of(env[k - 1].0.as_str());
        if crate::text::vec_eq(&name, key) {
            return Some(k - 1);
        }
        k = k - 1;
    }
    None
}

/// Copies the text of `rest` up to the end of its first placeholder, or
/// all of it where it holds none, and says how much it took.
#[verifier::rlimit(30)]
fn interpolate_step(env: &Vec<(String, AvmValue)>, rest: &Vec<char>, out: &mut Vec<char>) -> (used: usize)
    requires
        rest.len() > 0,
    ensures
        0 < used <= rest.len(),
        final(out)@ + interpolated(env@, rest@.subrange(used as int, rest@.len() as int)) == old(out)@
            + interpolated(env@, rest@),
{
    let ghost before = out@;
    let o = match crate::text::find_of(rest, '{') {
        Some(o) => o,
        None => {
            push_all(out, rest);
            assert(rest@.subrange(rest@.len() as int, rest@.len() as int) =~= Seq::<char>::empty());
            assert(find(Seq::<char>::empty(), '{') is None);
            assert(out@ + Seq::<char>::empty() =~= out@);
            return rest.len();
        },
    };
    proof {
        crate::text::lemma_find_from(rest@, '{', 0);
    }
    let head = slice(rest, 0, o);
    push_all(out, &head);
    let after = slice(rest, o + 1, rest.len());
    match crate::text::find_of(&after, '}') {
        Some(c) => {
            proof {
                crate::text::lemma_find_from(after@, '}', 0);
            }
            let key = slice(&after, 0, c);
            match env_find(env, &key) {
                Some(j) => {
                    let t = interpolation_text_of(&env[j].1);
                    push_all(out, &t);
                },
                None => {
                    out.push('{');
                    push_all(out, &key);
                    out.push('}');
                },
            }
            let used = o + 1 + c + 1;
            assert(after@.subrange(c + 1, after@.len() as int) =~= rest@.subrange(used as int, rest@.len() as int));
            assert(out@ + interpolated(env@, after@.subrange(c + 1, after@.len() as int)) =~= before + interpolated(
                env@,
                rest@,
            ));
            used
        },
        None => {
            out.push('{');
            assert(after@ =~= rest@.subrange(o + 1, rest@.len() as int));
            assert(out@ + interpolated(env@, after@) =~= before + interpolated(env@, rest@));
            o + 1
        },
    }
}

/// Replaces each `{name}` of a bound name by the text of its value
/// (`interpolate_string`); `env` lists the bindings, a later binding of a
/// name hiding an earlier one.
pub fn interpolate_string(env: &Vec<(String, AvmValue)>, s: &str) -> (r: String)
    ensures
        r@ == interpolated(env@, s@),
{
    let v = chars_of(s);
    let mut out: Vec<char> = Vec::new();
    let mut i: usize = 0;
    assert(v@.subrange(0, v@.len() as int) =~= v@);
    assert(out@ + v@ =~= v@);
    while i < v.len()
        invariant
            i <= v.len(),
            out@ + interpolated(env@, v@.subrange(i as int, v@.len() as int)) == interpolated(env@, v@),
        decreases v.len() - i,
    {
        let rest = slice(&v, i, v.len());
        let used = interpolate_step(env, &rest, &mut out);
        assert(rest@.subrange(used as int, rest@.len() as int) =~= v@.subrange(i + used, v@.len() as int));
        i = i + used;
    }
    assert(v@.subrange(v@.len() as int, v@.len() as int) =~= Seq::<char>::empty());
    assert(find(Seq::<char>::empty(), '{') is None);
    assert(out@ + Seq::<char>::empty() =~= out@);
    to_string(&out)
}

// ---------------------------------------------------------------------------
// User-interface trees
// ---------------------------------------------------------------------------

/// The properties of a node: `k: v` pairs separated by `, `.
pub open spec fn props_text(props: Seq<(String, String)>) -> Seq<char>
    decreases props.len(),
{
    if props.len() == 0 {
        seq![]
    } else if props.len() == 1 {
        props[0].0@ + ": "@ + props[0].1@
    } else {
        props_text(props.drop_last()) + ", "@ + props.last().0@ + ": "@ + props.last().1@
    }
}

/// The text of a tree: each node on a line of its own, after `pad` and two
/// more spaces for each level below the root, its properties in brackets
/// after its kind.
pub open spec fn tree_text(node: UiNode, pad: Seq<char>) -> Seq<char>
    decreases node, 1int,
{
    pad + node.kind@ + (if node.props.len() == 0 {
        seq![]
    } else {
        "("@ + props_text(node.props@) + ")"@
    }) + "\n"@ + children_text(node.children@, pad + "  "@, node)
}

/// The text of a node's children.
pub open spec fn children_text(cs: Seq<UiNode>, pad: Seq<char>, parent: UiNode) -> Seq<char>
    decreases parent, 0int, cs.len(),
{
    if cs.len() == 0 {
        seq![]
    } else if decreases_to!(parent => cs.last()) {
        children_text(cs.drop_last(), pad, parent) + tree_text(cs.last(), pad)
    } else {
        seq![]
    }
}

fn push_str(out: &mut Vec<char>, s: &str)
    ensures
        final(out)@ == old(out)@ + s@,
{
    push_all(out, &chars_of(s));
}

fn format_ui_tree_into(out: &mut Vec<char>, node: &UiNode, pad: &Vec<char>)
    ensures
        final(out)@ == old(out)@ + tree_text(*node, pad@),
    decreases node,
{
    let ghost start = out@;
    push_all(out, pad);
    push_str(out, node.kind.as_str());
    if node.props.len() > 0 {
        out.push('(');
        let ghost mid = out@;
        let mut k: usize = 0;
        while k < node.props.len()
            invariant
                k <= node.props.len(),
                k > 0 ==> out@ == mid + props_text(node.props@.subrange(0, k as int)),
                k == 0 ==> out@ == mid,
            decreases node.props.len() - k,
        {
            if k > 0 {
                push_str(out, ", ");
            }
            push_str(out, node.props[k].0.as_str());
            push_str(out, ": ");
            push_str(out, node.props[k].1.as_str());
            proof {
                let ps = node.props@.subrange(0, k + 1);
                assert(ps.drop_last() =~= node.props@.subrange(0, k as int));
                assert(ps.last() == node.props@[k as int]);
                assert(out@ =~= mid + props_text(ps));
            }
            k = k + 1;
        }
        assert(node.props@.subrange(0, node.props@.len() as int) =~= node.props@);
        out.push(')');
    }
    out.push('\n');
    proof {
        reveal_strlit("\n");
        reveal_strlit("(");
        reveal_strlit(")");
    }
    let ghost line_end = out@;
    let mut child_pad = slice(pad, 0, pad.len());
    push_str(&mut child_pad, "  ");
    let mut k: usize = 0;
    while k < node.children.len()
        invariant
            k <= node.children.len(),
            child_pad@ == pad@ + "  "@,
            out@ == line_end + children_text(node.children@.subrange(0, k as int), child_pad@, *node),
        decreases node.children.len() - k,
    {
        proof {
            assert(decreases_to!(*node => node.children));
            assert(decreases_to!(*node => node.children@[k as int]));
            let cs = node.children@.subrange(0, k + 1);
            assert(cs.drop_last() =~= node.children@.subrange(0, k as int));
        }
        format_ui_tree_into(out, &node.children[k], &child_pad);
        k = k + 1;
    }
    assert(node.children@.subrange(0, node.children@.len() as int) =~= node.children@);
}

/// The text of a user-interface tree (`format_ui_tree`).
pub fn format_ui_tree(root: &UiNode) -> (r: String)
    ensures
        r@ == tree_text(*root, seq![]),
{
    let mut out: Vec<char> = Vec::new();
    format_ui_tree_into(&mut out, root, &Vec::new());
    to_string(&out)
}


// ---------------------------------------------------------------------------
// Plugin imports in source text
// ---------------------------------------------------------------------------

/// The number of bytes of a character in UTF-8.
pub open spec fn char_bytes(c: char) -> nat {
    if (c as u32) < 0x80 {
        1
    } else if (c as u32) < 0x800 {
        2
    } else if (c as u32) < 0x10000 {
        3
    } else {
        4
    }
}

/// The number of bytes of a text in UTF-8.
pub open spec fn utf8_len(s: Seq<char>) -> nat
    decreases s.len(),
{
    if s.len() == 0 { 0 } else { utf8_len(s.drop_last()) + char_bytes(s.last()) }
}

/// `s.replace(p, r)`: the occurrences of `p`, found from the left without
/// overlapping, replaced by `r`.
pub open spec fn replace_all(s: Seq<char>, p: Seq<char>, r: Seq<char>) -> Seq<char>
    decreases s.len(),
{
    if s.len() == 0 || p.len() == 0 {
        s
    } else if crate::text::occurs_at(s, p, 0) {
        r + replace_all(s.subrange(p.len() as int, s.len() as int), p, r)
    } else {
        seq![s[0]] + replace_all(s.subrange(1, s.len() as int), p, r)
    }
}

/// `n` spaces.
pub open spec fn spaces(n: nat) -> Seq<char>
    decreases n,
{
    if n == 0 { seq![] } else { spaces((n - 1) as nat).push(' ') }
}

/// A line of source with the plugin names of an import written with
/// underscores (`import aura-ai` becomes `import aura_ai`, and so for
/// `aura-iot` and `aura-lumina`); the indentation becomes as many spaces
/// as it had bytes. Other lines stay as they are.
pub open spec fn normalized_line(line: Seq<char>) -> Seq<char> {
    let t = crate::text::trim_start(line);
    if t.len() >= 7 && t.subrange(0, 7) == "import "@ {
        let rewritten = replace_all(
            replace_all(replace_all(t, "import aura-ai"@, "import aura_ai"@), "import aura-iot"@, "import aura_iot"@),
            "import aura-lumina"@,
            "import aura_lumina"@,
        );
        spaces((utf8_len(line) - utf8_len(t)) as nat) + rewritten
    } else {
        line
    }
}

/// Lines joined by `\n`, without a final one.
pub open spec fn join_lines(ls: Seq<Seq<char>>) -> Seq<char>
    decreases ls.len(),
{
    if ls.len() == 0 {
        seq![]
    } else if ls.len() == 1 {
        ls[0]
    } else {
        join_lines(ls.drop_last()) + seq!['\n'] + ls.last()
    }
}

/// The source with each line normalized (see [`normalized_line`]).
pub open spec fn normalized_source(source: Seq<char>) -> Seq<char> {
    join_lines(crate::ai_opt::lines(source).map_values(|l: Seq<char>| normalized_line(l)))
}

fn replace_all_of(s: &Vec<char>, p: &str, r: &str) -> (out: Vec<char>)
    ensures
        out@ == replace_all(s@, p@, r@),
{
    let pv = chars_of(p);
    let rv = chars_of(r);
    let mut out: Vec<char> = Vec::new();
    if pv.len() == 0 {
        push_all(&mut out, s);
        assert(out@ =~= s@);
        return out;
    }
    let mut i: usize = 0;
    assert(s@.subrange(0, s@.len() as int) =~= s@);
    while i < s.len()
        invariant
            i <= s.len(),
            pv@ == p@,
            rv@ == r@,
            pv@.len() > 0,
            out@ + replace_all(s@.subrange(i as int, s@.len() as int), p@, r@) == replace_all(s@, p@, r@),
        decreases s.len() - i,
    {
        let ghost rest = s@.subrange(i as int, s@.len() as int);
        if pv.len() <= s.len() - i && crate::text::matches_at(s, &pv, i) {
            proof {
                assert(rest.subrange(0, pv@.len() as int) =~= s@.subrange(i as int, i + pv@.len()));
                assert(crate::text::occurs_at(rest, p@, 0));
                assert(rest.subrange(p@.len() as int, rest.len() as int) =~= s@.subrange(i + pv@.len(), s@.len() as int));
            }
            let ghost before = out@;
            push_all(&mut out, &rv);
            proof {
                let next = s@.subrange(i + pv@.len(), s@.len() as int);
                assert(replace_all(rest, p@, r@) == r@ + replace_all(next, p@, r@));
                assert(out@ + replace_all(next, p@, r@) =~= before + replace_all(rest, p@, r@));
            }
            i = i + pv.len();
        } else {
            proof {
                if crate::text::occurs_at(rest, p@, 0) {
                    assert(rest.subrange(0, p@.len() as int) =~= s@.subrange(i as int, i + p@.len()));
                    assert(crate::text::occurs_at(s@, pv@, i as int));
                }
                assert(rest.subrange(1, rest.len() as int) =~= s@.subrange(i + 1, s@.len() as int));
                assert(replace_all(rest, p@, r@) == seq![s@[i as int]] + replace_all(s@.subrange(i + 1, s@.len() as int), p@, r@));
            }
            let ghost before = out@;
            out.push(s[i]);
            assert(out@ + replace_all(s@.subrange(i + 1, s@.len() as int), p@, r@) =~= before + replace_all(rest, p@, r@));
            i = i + 1;
        }
    }
    assert(s@.subrange(s@.len() as int, s@.len() as int) =~= Seq::<char>::empty());
    assert(out@ + Seq::<char>::empty() =~= out@);
    out
}

fn utf8_len_of(s: &Vec<char>) -> (n: usize)
    requires
        utf8_len(s@) <= usize::MAX,
    ensures
        n == utf8_len(s@),
{
    let mut n: usize = 0;
    let mut k: usize = 0;
    while k < s.len()
        invariant
            k <= s.len(),
            utf8_len(s@) <= usize::MAX,
            n == utf8_len(s@.subrange(0, k as int)),
        decreases s.len() - k,
    {
        let c = s[k] as u32;
        let b: usize = if c < 0x80 {
            1
        } else if c < 0x800 {
            2
        } else if c < 0x10000 {
            3
        } else {
            4
        };
        proof {
            assert(s@.subrange(0, k + 1).drop_last() =~= s@.subrange(0, k as int));
            assert(s@ =~= s@.subrange(0, k + 1) + s@.subrange(k + 1, s@.len() as int));
            lemma_utf8_len_append(s@.subrange(0, k + 1), s@.subrange(k + 1, s@.len() as int));
        }
        n = n + b;
        k = k + 1;
    }
    assert(s@.subrange(0, s@.len() as int) =~= s@);
    n
}

proof fn lemma_utf8_len_append(a: Seq<char>, b: Seq<char>)
    ensures
        utf8_len(a + b) == utf8_len(a) + utf8_len(b),
    decreases b.len(),
{
    if b.len() > 0 {
        assert((a + b).drop_last() =~= a + b.drop_last());
        lemma_utf8_len_append(a, b.drop_last());
    } else {
        assert(a + b =~= a);
    }
}

fn normalized_line_of(line: &Vec<char>) -> (out: Vec<char>)
    requires
        utf8_len(line@) <= usize::MAX,
    ensures
        out@ == normalized_line(line@),
{
    let t = crate::text::trim_start_of(line);
    let import = chars_of("import ");
    proof {
        reveal_strlit("import ");
    }
    if t.len() >= 7 && crate::text::matches_at(&t, &import, 0) {
        proof {
            reveal_strlit("import ");
            assert(t@.subrange(0, 7) =~= "import "@);
        }
        let a = replace_all_of(&t, "import aura-ai", "import aura_ai");
        let b = replace_all_of(&a, "import aura-iot", "import aura_iot");
        let c = replace_all_of(&b, "import aura-lumina", "import aura_lumina");
        proof {
            crate::text::lemma_skip_ws_bounds(line@, 0);
            let k = crate::text::skip_ws(line@, 0);
            assert(line@ =~= line@.subrange(0, k) + t@);
            lemma_utf8_len_append(line@.subrange(0, k), t@);
        }
        let total = utf8_len_of(line);
        let inner = utf8_len_of(&t);
        let pad = total - inner;
        let mut out: Vec<char> = Vec::new();
        let mut j: usize = 0;
        while j < pad
            invariant
                j <= pad,
                out@ == spaces(j as nat),
            decreases pad - j,
        {
            out.push(' ');
            j = j + 1;
        }
        push_all(&mut out, &c);
        out
    } else {
        proof {
            reveal_strlit("import ");
            if t@.len() >= 7 && t@.subrange(0, 7) == "import "@ {
                assert(crate::text::occurs_at(t@, import@, 0));
            }
        }
        slice(line, 0, line.len())
    }
}

/// The source with the plugin names of its imports written with
/// underscores (`normalize_source_for_plugin_imports`).
pub fn normalize_source_for_plugin_imports(source: &str) -> (r: String)
    requires
        utf8_len(source@) <= usize::MAX,
    ensures
        r@ == normalized_source(source@),
{
    let ls = crate::ai_opt::lines_of(&chars_of(source));
    let ghost all = crate::ai_opt::lines(source@);
    let ghost norm = all.map_values(|l: Seq<char>| normalized_line(l));
    let mut out: Vec<char> = Vec::new();
    let mut k: usize = 0;
    while k < ls.len()
        invariant
            k <= ls.len(),
            utf8_len(source@) <= usize::MAX,
            all == crate::ai_opt::lines(source@),
            ls@.len() == all.len(),
            norm == all.map_values(|l: Seq<char>| normalized_line(l)),
            forall|j: int| 0 <= j < ls@.len() ==> #[trigger] ls@[j]@ == all[j],
            out@ == join_lines(norm.subrange(0, k as int)),
        decreases ls.len() - k,
    {
        proof {
            lemma_line_short(source@, k as int);
        }
        let l = normalized_line_of(&ls[k]);
        if k > 0 {
            out.push('\n');
        }
        push_all(&mut out, &l);
        proof {
            let ns = norm.subrange(0, k + 1);
            assert(ns.drop_last() =~= norm.subrange(0, k as int));
            assert(ns.last() == l@);
            if k == 0 {
                assert(ns.len() == 1);
            }
            assert(out@ =~= join_lines(ns));
        }
        k = k + 1;
    }
    assert(norm.subrange(0, norm.len() as int) =~= norm);
    to_string(&out)
}

proof fn lemma_line_short(s: Seq<char>, k: int)
    requires
        0 <= k < crate::ai_opt::lines(s).len(),
    ensures
        utf8_len(crate::ai_opt::lines(s)[k]) <= utf8_len(s),
{
    let (a, b) = lemma_line_within(s, 0, k);
    let x = s.subrange(a, b);
    assert(s =~= s.subrange(0, a) + x + s.subrange(b, s.len() as int));
    lemma_utf8_len_append(s.subrange(0, a) + x, s.subrange(b, s.len() as int));
    lemma_utf8_len_append(s.subrange(0, a), x);
}

proof fn lemma_line_within(s: Seq<char>, i: int, k: int) -> (ab: (int, int))
    requires
        0 <= i,
        0 <= k < crate::ai_opt::lines_from(s, i).len(),
    ensures
        0 <= ab.0 <= ab.1 <= s.len(),
        crate::ai_opt::lines_from(s, i)[k] == s.subrange(ab.0, ab.1),
    decreases s.len() - i,
{
    crate::text::lemma_find_from(s, '\n', i);
    let ls = crate::ai_opt::lines_from(s, i);
    match crate::text::find_from(s, '\n', i) {
        Some(e) => {
            let x = crate::ai_opt::strip_cr(s.subrange(i, e));
            let rest = crate::ai_opt::lines_from(s, e + 1);
            assert(ls == seq![x] + rest);
            if k == 0 {
                if e > i && s[e - 1] == '\r' {
                    assert(x =~= s.subrange(i, e - 1));
                    (i, e - 1)
                } else {
                    (i, e)
                }
            } else {
                assert(ls[k] == rest[k - 1]);
                lemma_line_within(s, e + 1, k - 1)
            }
        },
        None => {
            assert(ls == seq![s.subrange(i, s.len() as int)]);
            (i, s.len() as int)
        },
    }
}

} // verus!

