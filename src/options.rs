use vstd::prelude::*;

use crate::constants::Constant;
use crate::format_value::{writes, Format};
use crate::template::{
    contains_parameter, dollar_dollar, params, replace_parameters, replaced_from, uses_only,
    uses_only_known, Params,
};
use crate::text::push_char;
use crate::value::FloatArith;

verus! {

/// Formatting for one type in some language.
#[derive(Debug)]
pub struct LangTypeOptions {
    /// The type's name in the language, where it differs.
    pub name: Option<String>,
    /// Written before each value of the type.
    pub value_prefix: String,
    /// Written after each value of the type.
    pub value_suffix: String,
    /// How values of the type are written.
    pub format: Format,
    /// What a use of the type needs imported.
    pub import: Vec<String>,
}

/// The settings for one language: templates for a constant (`$name`,
/// `$value`, `$type`), an import (`$import`), a comment (`$comment`), and
/// the start and end of the block of constants; each template's output is
/// followed by a line break. Each type is named once (`wf`).
#[derive(Debug)]
pub struct LangOptions {
    pub file_ext: String,
    pub template: String,
    pub import: Option<String>,
    pub comment: Option<String>,
    pub intro: Option<String>,
    pub outro: Option<String>,
    pub format: Format,
    /// A command that reads code on its input and writes it formatted.
    pub formatter: Option<Vec<String>>,
    pub types: Vec<(String, LangTypeOptions)>,
}

#[derive(Debug)]
pub struct CodegenOptions {
    /// The languages to generate files for.
    pub enabled: Vec<String>,
    pub comment_sections: bool,
}

/// The code generation settings and each language's options, every
/// language named once (`wf`).
#[derive(Debug)]
pub struct Options {
    pub codegen: CodegenOptions,
    pub lang: Vec<(String, LangOptions)>,
}

pub open spec fn key_name() -> Seq<char> {
    seq!['$', 'n', 'a', 'm', 'e']
}

pub open spec fn key_value() -> Seq<char> {
    seq!['$', 'v', 'a', 'l', 'u', 'e']
}

pub open spec fn key_type() -> Seq<char> {
    seq!['$', 't', 'y', 'p', 'e']
}

pub open spec fn key_import() -> Seq<char> {
    seq!['$', 'i', 'm', 'p', 'o', 'r', 't']
}

pub open spec fn key_comment() -> Seq<char> {
    seq!['$', 'c', 'o', 'm', 'm', 'e', 'n', 't']
}

/// The options of the first type named `name`.
pub open spec fn find_type(types: Seq<(String, LangTypeOptions)>, name: Seq<char>) -> Option<
    LangTypeOptions,
>
    decreases types.len(),
{
    if types.len() == 0 {
        None
    } else if types[0].0@ == name {
        Some(types[0].1)
    } else {
        find_type(types.drop_first(), name)
    }
}

pub open spec fn optional_uses_only(t: Option<String>, keys: Set<Seq<char>>) -> bool {
    match t {
        Some(s) => uses_only(s@, keys),
        None => true,
    }
}

/// No two entries share a name.
pub open spec fn names_unique<T>(s: Seq<(String, T)>) -> bool {
    forall|i: int, j: int| 0 <= i < j < s.len() ==> (#[trigger] s[i]).0@ != (#[trigger] s[j]).0@
}

fn unique_names<T>(s: &Vec<(String, T)>) -> (r: bool)
    ensures
        r == names_unique(s@),
{
    let mut j: usize = 0;
    while j < s.len()
        invariant
            j <= s.len(),
            forall|a: int, b: int| 0 <= a < b < j ==> (#[trigger] s@[a]).0@ != (#[trigger] s@[b]).0@,
        decreases s.len() - j,
    {
        let mut i: usize = 0;
        while i < j
            invariant
                i <= j < s.len(),
                forall|a: int, b: int| 0 <= a < b < j ==> (#[trigger] s@[a]).0@ != (#[trigger] s@[b]).0@,
                forall|a: int| 0 <= a < i ==> (#[trigger] s@[a]).0@ != s@[j as int].0@,
            decreases j - i,
        {
            if s[i].0 == s[j].0 {
                return false;
            }
            i += 1;
        }
        j += 1;
    }
    true
}

/// The constant template uses only `$name`, `$value` and `$type`.
pub open spec fn template_wf(l: LangOptions) -> bool {
    uses_only(l.template@, set![key_name(), key_value(), key_type()])
}

/// The import template, if any, uses only `$import`.
pub open spec fn import_wf(l: LangOptions) -> bool {
    optional_uses_only(l.import, set![key_import()])
}

/// The comment template, if any, uses only `$comment`.
pub open spec fn comment_wf(l: LangOptions) -> bool {
    optional_uses_only(l.comment, set![key_comment()])
}

/// The templates of the block's start and end, if any, use no parameter.
pub open spec fn intro_wf(l: LangOptions) -> bool {
    optional_uses_only(l.intro, Set::empty())
}

pub open spec fn outro_wf(l: LangOptions) -> bool {
    optional_uses_only(l.outro, Set::empty())
}

/// The parameters of each template as given to it, and types named once.
pub open spec fn lang_wf(l: LangOptions) -> bool {
    &&& names_unique(l.types@)
    &&& template_wf(l)
    &&& import_wf(l)
    &&& comment_wf(l)
    &&& intro_wf(l)
    &&& outro_wf(l)
}

fn optional_ok(t: &Option<String>, known: &Params) -> (r: bool)
    ensures
        r == optional_uses_only(*t, known@.dom()),
{
    match t {
        Some(s) => uses_only_known(s.as_str(), known),
        None => true,
    }
}

/// The format for a constant's value: its type's where it has one.
pub open spec fn value_format(l: LangOptions, c: Constant) -> Format {
    match c.type_ {
        Some(t) => match find_type(l.types@, t@) {
            Some(to) => to.format,
            None => l.format,
        },
        None => l.format,
    }
}

/// What the template of a constant is given, its value written as `text`.
pub open spec fn constant_params(l: LangOptions, c: Constant, text: Seq<char>) -> Map<
    Seq<char>,
    Seq<char>,
> {
    let base = Map::empty().insert(key_name(), c.name@).insert(key_value(), text);
    if params(l.template@).contains(key_type()) {
        let t = c.type_->Some_0@;
        match find_type(l.types@, t) {
            Some(to) => base.insert(
                key_type(),
                match to.name {
                    Some(n) => n@,
                    None => t,
                },
            ).insert(key_value(), to.value_prefix@ + text + to.value_suffix@),
            None => base.insert(key_type(), t),
        }
    } else {
        base
    }
}

/// A template's output and a line break, or nothing without a template.
pub open spec fn line_of(t: Option<String>, ctx: Map<Seq<char>, Seq<char>>) -> Seq<char> {
    match t {
        Some(s) => replaced_from(s@, 0, ctx) + seq!['\n'],
        None => seq![],
    }
}

fn set_value_text(p: &mut Params, text: String)
    ensures
        final(p)@ == old(p)@.insert(key_value(), text@),
{
    proof {
        reveal_strlit("$value");
        assert("$value"@ =~= key_value());
    }
    p.insert("$value", text);
}

impl LangOptions {
    pub open spec fn wf(&self) -> bool {
        lang_wf(*self)
    }

    /// Whether the constant template uses only the parameters given to it.
    pub fn template_ok(&self) -> (r: bool)
        ensures
            r == template_wf(*self),
    {
        proof {
            reveal_strlit("$name");
            reveal_strlit("$value");
            reveal_strlit("$type");
            assert("$name"@ =~= key_name());
            assert("$value"@ =~= key_value());
            assert("$type"@ =~= key_type());
        }
        let mut known = Params::new();
        known.insert("$name", String::new());
        known.insert("$value", String::new());
        known.insert("$type", String::new());
        assert(known@.dom() =~= set![key_name(), key_value(), key_type()]);
        uses_only_known(self.template.as_str(), &known)
    }

    /// Whether the import template uses only `$import`.
    pub fn import_ok(&self) -> (r: bool)
        ensures
            r == import_wf(*self),
    {
        proof {
            reveal_strlit("$import");
            assert("$import"@ =~= key_import());
        }
        let mut known = Params::new();
        known.insert("$import", String::new());
        assert(known@.dom() =~= set![key_import()]);
        optional_ok(&self.import, &known)
    }

    /// Whether the comment template uses only `$comment`.
    pub fn comment_ok(&self) -> (r: bool)
        ensures
            r == comment_wf(*self),
    {
        proof {
            reveal_strlit("$comment");
            assert("$comment"@ =~= key_comment());
        }
        let mut known = Params::new();
        known.insert("$comment", String::new());
        assert(known@.dom() =~= set![key_comment()]);
        optional_ok(&self.comment, &known)
    }

    /// Whether the template of the block's start uses no parameter.
    pub fn intro_ok(&self) -> (r: bool)
        ensures
            r == intro_wf(*self),
    {
        let known = Params::new();
        assert(known@.dom() =~= Set::<Seq<char>>::empty());
        optional_ok(&self.intro, &known)
    }

    /// Whether the template of the block's end uses no parameter.
    pub fn outro_ok(&self) -> (r: bool)
        ensures
            r == outro_wf(*self),
    {
        let known = Params::new();
        assert(known@.dom() =~= Set::<Seq<char>>::empty());
        optional_ok(&self.outro, &known)
    }

    /// Whether no two types share a name.
    pub fn types_ok(&self) -> (r: bool)
        ensures
            r == names_unique(self.types@),
    {
        unique_names(&self.types)
    }

    /// Whether types are named once and each template uses only the
    /// parameters given to it.
    pub fn check(&self) -> (r: bool)
        ensures
            r == self.wf(),
    {
        self.types_ok() && self.template_ok() && self.import_ok() && self.comment_ok() && self.intro_ok()
            && self.outro_ok()
    }

    /// The options of the first type named `name`.
    pub fn type_options(&self, name: &String) -> (r: Option<&LangTypeOptions>)
        ensures
            match find_type(self.types@, name@) {
                Some(t) => r is Some && *r->Some_0 == t,
                None => r is None,
            },
    {
        let mut i: usize = 0;
        assert(self.types@.subrange(0, self.types.len() as int) =~= self.types@);
        while i < self.types.len()
            invariant
                i <= self.types.len(),
                find_type(self.types@, name@) == find_type(self.types@.subrange(i as int, self.types.len() as int), name@),
            decreases self.types.len() - i,
        {
            let ghost rest = self.types@.subrange(i as int, self.types.len() as int);
            assert(rest.drop_first() =~= self.types@.subrange(i + 1, self.types.len() as int));
            if self.types[i].0 == *name {
                return Some(&self.types[i].1);
            }
            i += 1;
        }
        None
    }

    /// The line for a constant, `None` where the template names the type
    /// and the constant has none.
    pub fn format_constant<A: FloatArith>(&self, constant: &Constant, arith: &A) -> (r: Option<String>)
        requires
            template_wf(*self),
            constant.resolved_value is Some,
        ensures
            params(self.template@).contains(key_type()) && constant.type_ is None ==> r is None,
            !(params(self.template@).contains(key_type()) && constant.type_ is None) ==> r is Some
                && exists|text: Seq<char>|
                writes(value_format(*self, *constant), constant.resolved_value->Some_0, text)
                    && r->Some_0@ == replaced_from(
                    self.template@,
                    0,
                    constant_params(*self, *constant, text),
                ),
    {
        proof {
            reveal_strlit("$name");
            reveal_strlit("$type");
            reveal_strlit("$value");
            assert("$value"@ =~= key_value());
            reveal_strlit("$$");
            assert("$name"@ =~= key_name());
            assert("$type"@ =~= key_type());
            assert("$$"@ =~= dollar_dollar());
        }
        let fmt = match &constant.type_ {
            Some(t) => match self.type_options(t) {
                Some(to) => &to.format,
                None => &self.format,
            },
            None => &self.format,
        };
        let text = fmt.format(&constant.value(), arith);
        let ghost vt = text@;
        let mut ctx = Params::new();
        ctx.insert("$name", constant.name.clone());
        set_value_text(&mut ctx, text);
        let ghost base = Map::empty().insert(key_name(), constant.name@).insert(key_value(), vt);
        assert(ctx@ == base);
        let has_type = contains_parameter(self.template.as_str(), "$type");
        assert(has_type == params(self.template@).contains(key_type()));
        if has_type {
            let t = match &constant.type_ {
                Some(t) => t,
                None => {
                    return None;
                },
            };
            ctx.insert("$type", t.clone());
            match self.type_options(t) {
                Some(to) => {
                    match &to.name {
                        Some(n) => {
                            ctx.insert("$type", n.clone());
                        },
                        None => {},
                    }
                    let mut v = to.value_prefix.clone();
                    match ctx.get("$value") {
                        Some(old) => {
                            v.append(old.as_str());
                        },
                        None => {},
                    }
                    v.append(to.value_suffix.as_str());
                    set_value_text(&mut ctx, v);
                    assert(ctx@ =~= constant_params(*self, *constant, vt));
                },
                None => {
                    assert(ctx@ =~= constant_params(*self, *constant, vt));
                },
            }
        }
        proof {
            assert(ctx@ =~= constant_params(*self, *constant, vt));
            assert forall|k: int|
                0 <= k < params(self.template@).len() && #[trigger] params(self.template@)[k]
                    != dollar_dollar() implies ctx@.contains_key(params(self.template@)[k]) by {
                assert(set![key_name(), key_value(), key_type()].contains(params(self.template@)[k]));
                if params(self.template@)[k] == key_type() {
                    assert(params(self.template@).contains(key_type()));
                }
            }
        }
        Some(replace_parameters(self.template.as_str(), &ctx))
    }

    /// The import line for `import`, `None` where the language has no
    /// import syntax.
    pub fn format_import(&self, import: &str) -> (r: Option<String>)
        requires
            import_wf(*self),
        ensures
            match self.import {
                Some(t) => r is Some && r->Some_0@ == replaced_from(
                    t@,
                    0,
                    Map::empty().insert(key_import(), import@),
                ),
                None => r is None,
            },
    {
        proof {
            reveal_strlit("$import");
            assert("$import"@ =~= key_import());
        }
        let mut ctx = Params::new();
        ctx.insert("$import", import.to_owned());
        match &self.import {
            Some(t) => {
                assert(ctx@.dom() =~= set![key_import()]);
                Some(replace_parameters(t.as_str(), &ctx))
            },
            None => None,
        }
    }

    /// The comment line for `comment`; empty where the language has none.
    pub fn format_comment(&self, comment: &str) -> (r: String)
        requires
            comment_wf(*self),
        ensures
            r@ == line_of(self.comment, Map::empty().insert(key_comment(), comment@)),
    {
        proof {
            reveal_strlit("$comment");
            assert("$comment"@ =~= key_comment());
        }
        let mut ctx = Params::new();
        ctx.insert("$comment", comment.to_owned());
        match &self.comment {
            Some(t) => {
                assert(ctx@.dom() =~= set![key_comment()]);
                let mut r = replace_parameters(t.as_str(), &ctx);
                push_char(&mut r, '\n');
                r
            },
            None => String::new(),
        }
    }

    /// The line that starts the block of constants; empty without one.
    pub fn format_intro(&self) -> (r: String)
        requires
            intro_wf(*self),
        ensures
            r@ == line_of(self.intro, Map::empty()),
    {
        let ctx = Params::new();
        match &self.intro {
            Some(t) => {
                assert(ctx@.dom() =~= Set::<Seq<char>>::empty());
                let mut r = replace_parameters(t.as_str(), &ctx);
                push_char(&mut r, '\n');
                r
            },
            None => String::new(),
        }
    }

    /// The line that ends the block of constants; empty without one.
    pub fn format_outro(&self) -> (r: String)
        requires
            outro_wf(*self),
        ensures
            r@ == line_of(self.outro, Map::empty()),
    {
        let ctx = Params::new();
        match &self.outro {
            Some(t) => {
                assert(ctx@.dom() =~= Set::<Seq<char>>::empty());
                let mut r = replace_parameters(t.as_str(), &ctx);
                push_char(&mut r, '\n');
                r
            },
            None => String::new(),
        }
    }

    /// What a constant's type needs imported in this language.
    pub fn constant_imports(&self, constant: &Constant) -> (r: Vec<String>)
        ensures
            r@.map_values(|s: String| s@) == match constant.type_ {
                Some(t) => match find_type(self.types@, t@) {
                    Some(to) => to.import@.map_values(|s: String| s@),
                    None => seq![],
                },
                None => seq![],
            },
    {
        let mut r: Vec<String> = Vec::new();
        if let Some(t) = &constant.type_ {
            if let Some(to) = self.type_options(t) {
                let mut i: usize = 0;
                while i < to.import.len()
                    invariant
                        i <= to.import.len(),
                        r.len() == i,
                        forall|k: int| 0 <= k < i ==> (#[trigger] r@[k])@ == to.import@[k]@,
                    decreases to.import.len() - i,
                {
                    r.push(to.import[i].clone());
                    i += 1;
                }
                assert(r@.map_values(|s: String| s@) =~= to.import@.map_values(|s: String| s@));
            }
        }
        proof {
            assert(Seq::<String>::empty().map_values(|s: String| s@) =~= Seq::<Seq<char>>::empty());
        }
        r
    }
}

/// The languages among `lang` that `enabled` names, in order.
pub open spec fn enabled_langs(lang: Seq<(String, LangOptions)>, enabled: Seq<String>) -> Seq<
    (String, LangOptions),
>
    decreases lang.len(),
{
    if lang.len() == 0 {
        seq![]
    } else {
        let rest = enabled_langs(lang.drop_last(), enabled);
        if enabled.map_values(|s: String| s@).contains(lang.last().0@) {
            rest.push(lang.last())
        } else {
            rest
        }
    }
}

fn is_enabled(enabled: &Vec<String>, name: &String) -> (r: bool)
    ensures
        r == enabled@.map_values(|s: String| s@).contains(name@),
{
    let ghost names = enabled@.map_values(|s: String| s@);
    let mut i: usize = 0;
    while i < enabled.len()
        invariant
            names == enabled@.map_values(|s: String| s@),
            i <= enabled.len(),
            forall|k: int| 0 <= k < i ==> names[k] != name@,
        decreases enabled.len() - i,
    {
        if enabled[i] == *name {
            assert(names[i as int] == name@);
            return true;
        }
        i += 1;
    }
    false
}

/// Languages are named once, and so are the types of each.
pub open spec fn options_wf(o: Options) -> bool {
    &&& names_unique(o.lang@)
    &&& forall|k: int| 0 <= k < o.lang.len() ==> names_unique((#[trigger] o.lang@[k]).1.types@)
}

impl Options {
    pub open spec fn wf(&self) -> bool {
        options_wf(*self)
    }

    /// Whether languages, and the types of each, are named once.
    pub fn names_ok(&self) -> (r: bool)
        ensures
            r == self.wf(),
    {
        if !unique_names(&self.lang) {
            return false;
        }
        let mut k: usize = 0;
        while k < self.lang.len()
            invariant
                k <= self.lang.len(),
                names_unique(self.lang@),
                forall|m: int| 0 <= m < k ==> names_unique((#[trigger] self.lang@[m]).1.types@),
            decreases self.lang.len() - k,
        {
            if !self.lang[k].1.types_ok() {
                return false;
            }
            k += 1;
        }
        true
    }

    /// The languages to generate, as listed.
    pub fn languages(&self) -> (r: Vec<(&String, &LangOptions)>)
        ensures
            r@.map_values(|p: (&String, &LangOptions)| (*p.0, *p.1)) == enabled_langs(
                self.lang@,
                self.codegen.enabled@,
            ),
    {
        let mut r: Vec<(&String, &LangOptions)> = Vec::new();
        let mut i: usize = 0;
        while i < self.lang.len()
            invariant
                i <= self.lang.len(),
                r@.map_values(|p: (&String, &LangOptions)| (*p.0, *p.1)) == enabled_langs(
                    self.lang@.subrange(0, i as int),
                    self.codegen.enabled@,
                ),
            decreases self.lang.len() - i,
        {
            let ghost before = r@;
            assert(self.lang@.subrange(0, i + 1).drop_last() =~= self.lang@.subrange(0, i as int));
            let entry = &self.lang[i];
            if is_enabled(&self.codegen.enabled, &entry.0) {
                r.push((&entry.0, &entry.1));
                assert(r@.map_values(|p: (&String, &LangOptions)| (*p.0, *p.1)) =~= before.map_values(|p: (&String, &LangOptions)| (*p.0, *p.1)).push(self.lang@[i as int]));
            }
            i += 1;
        }
        assert(self.lang@.subrange(0, i as int) =~= self.lang@);
        r
    }
}

} // verus!
