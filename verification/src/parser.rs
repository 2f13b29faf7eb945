//! Extracting module declarations from one source file's text.
//!
//! The text is parsed by an outside parser behind a trusted boundary;
//! what crosses the boundary is a flat pre-order event stream over the
//! file's module declarations. Everything after that — recognizing the
//! `path` override attribute, keeping the stack of enclosing
//! declaration names balanced, and emitting one [`Module`] per
//! file-backed declaration — is verified logic over that stream.

use crate::syntax::{parse_mod_events, parsed_events};
use crate::Error;
use vstd::prelude::*;
use vstd::string::StringExecFns;

verus! {

/// An attribute on a module declaration, reduced to the two forms the
/// extractor distinguishes.
pub enum AttrInfo {
    /// `#[name = "value"]` whose value is a string literal.
    StrNameValue { name: String, value: String },
    /// Any other attribute form; always ignored.
    Other,
}

/// One step of a pre-order walk over a file's module declarations.
pub enum ModEvent {
    /// A module declaration opens: its name, its attributes, and
    /// whether it has an inline body.
    Enter { name: String, attrs: Vec<AttrInfo>, has_body: bool },
    /// The most recently opened declaration closes.
    Exit,
}

/// The mathematical value of one declaration-chain component.
pub ghost struct ComponentView {
    /// The declared module name.
    pub name: Seq<char>,
    /// The `path` override attached to it, if any.
    pub path: Option<Seq<char>>,
}

/// One component of a declaration chain: a module name together with
/// its optional `path` override.
pub struct PathComponent {
    /// The declared module name.
    pub name: String,
    /// An optional path override, set using the `#[path = "..."]`
    /// attribute.
    pub path: Option<String>,
}

impl View for PathComponent {
    type V = ComponentView;

    open spec fn view(&self) -> ComponentView {
        ComponentView {
            name: self.name@,
            path: match self.path {
                Some(p) => Some(p@),
                None => None,
            },
        }
    }
}

/// One file-backed module declaration: the chain of components from
/// the scan's starting point down to the declaration itself.
pub struct Module {
    /// The collection of path components that make up this module
    /// definition. A declaration nested in inline parent blocks has
    /// one component per enclosing block, outermost first; the
    /// innermost component is the declaration itself.
    pub parts: Vec<PathComponent>,
}

/// The mathematical value of a component list.
pub open spec fn comps_view(parts: Seq<PathComponent>) -> Seq<ComponentView> {
    parts.map(|i: int, c: PathComponent| c@)
}

impl View for Module {
    type V = Seq<ComponentView>;

    open spec fn view(&self) -> Seq<ComponentView> {
        comps_view(self.parts@)
    }
}

/// The name of the override attribute.
pub open spec fn path_attr_name() -> Seq<char> {
    seq!['p', 'a', 't', 'h']
}

/// The override an attribute contributes: the value of a
/// string-valued `path` attribute, nothing otherwise.
pub open spec fn attr_override(a: AttrInfo) -> Option<Seq<char>> {
    match a {
        AttrInfo::StrNameValue { name, value } => if name@ == path_attr_name() {
            Some(value@)
        } else {
            None
        },
        AttrInfo::Other => None,
    }
}

/// The first override among a declaration's attributes, if any.
pub open spec fn first_override(attrs: Seq<AttrInfo>) -> Option<Seq<char>>
    decreases attrs.len(),
{
    if attrs.len() == 0 {
        None
    } else if attr_override(attrs[0]) is Some {
        attr_override(attrs[0])
    } else {
        first_override(attrs.skip(1))
    }
}

/// One extraction step: how an event transforms the stack of
/// enclosing components and the emitted declarations.
pub open spec fn extract_step(
    state: (Seq<ComponentView>, Seq<Seq<ComponentView>>),
    ev: ModEvent,
) -> (Seq<ComponentView>, Seq<Seq<ComponentView>>) {
    match ev {
        ModEvent::Enter { name, attrs, has_body } => {
            let comp = ComponentView { name: name@, path: first_override(attrs@) };
            let stack = state.0.push(comp);
            if !has_body {
                (stack, state.1.push(stack))
            } else {
                (stack, state.1)
            }
        },
        ModEvent::Exit => {
            if state.0.len() > 0 {
                (state.0.drop_last(), state.1)
            } else {
                state
            }
        },
    }
}

/// The extraction state after the first `i` events.
pub open spec fn extract_state(events: Seq<ModEvent>, i: int) -> (
    Seq<ComponentView>,
    Seq<Seq<ComponentView>>,
)
    decreases i,
{
    if i <= 0 {
        (Seq::empty(), Seq::empty())
    } else {
        extract_step(extract_state(events, i - 1), events[i - 1])
    }
}

/// The declarations extracted from a whole event stream, in source
/// order.
pub open spec fn extract_spec(events: Seq<ModEvent>) -> Seq<Seq<ComponentView>> {
    extract_state(events, events.len() as int).1
}

/// The mathematical value of an extracted declaration list.
pub open spec fn mods_view(mods: Seq<Module>) -> Seq<Seq<ComponentView>> {
    mods.map(|i: int, m: Module| m@)
}

/// Every declaration chain extracted from an event stream is
/// non-empty: a chain always ends in the declaration that emitted it.
pub proof fn lemma_extract_nonempty(events: Seq<ModEvent>, i: int)
    ensures
        forall|k: int|
            0 <= k < extract_state(events, i).1.len() ==> #[trigger] extract_state(
                events,
                i,
            ).1[k].len() > 0,
    decreases i,
{
    if i <= 0 {
    } else {
        lemma_extract_nonempty(events, i - 1);
        let st = extract_state(events, i - 1);
        let st2 = extract_state(events, i);
        match events[i - 1] {
            ModEvent::Enter { name, attrs, has_body } => {
                if !has_body {
                    assert forall|k: int| 0 <= k < st2.1.len() implies #[trigger] st2.1[k].len()
                        > 0 by {
                        if k < st.1.len() {
                            assert(st2.1[k] == st.1[k]);
                        } else {
                            assert(st2.1[k] == st.0.push(
                                ComponentView { name: name@, path: first_override(attrs@) },
                            ));
                        }
                    }
                }
            },
            ModEvent::Exit => {},
        }
    }
}

/// The first string-valued `path` attribute's value, if any.
pub fn find_override(attrs: &Vec<AttrInfo>) -> (r: Option<String>)
    ensures
        (match r {
            Some(v) => Some(v@),
            None => None,
        }) == first_override(attrs@),
{
    let key = String::from_str("path");
    proof {
        reveal_strlit("path");
        assert(key@ =~= path_attr_name());
    }
    let n = attrs.len();
    let mut i: usize = 0;
    proof {
        assert(attrs@.skip(0) =~= attrs@);
    }
    while i < n
        invariant
            n == attrs@.len(),
            i <= n,
            key@ == path_attr_name(),
            first_override(attrs@) == first_override(attrs@.skip(i as int)),
        decreases n - i,
    {
        let ghost s_i = attrs@.skip(i as int);
        proof {
            assert(s_i[0] == attrs@[i as int]);
            assert(s_i.skip(1) =~= attrs@.skip(i as int + 1));
        }
        match &attrs[i] {
            AttrInfo::StrNameValue { name, value } => {
                if *name == key {
                    return Some(value.clone());
                }
            },
            AttrInfo::Other => {},
        }
        i = i + 1;
    }
    proof {
        assert(attrs@.skip(n as int).len() == 0);
    }
    None
}

/// An identical, independently owned component list.
fn clone_components(parts: &Vec<PathComponent>) -> (r: Vec<PathComponent>)
    ensures
        comps_view(r@) == comps_view(parts@),
{
    let mut r: Vec<PathComponent> = Vec::new();
    let n = parts.len();
    let mut i: usize = 0;
    proof {
        assert(comps_view(r@) =~= comps_view(parts@).take(0));
    }
    while i < n
        invariant
            n == parts@.len(),
            i <= n,
            comps_view(r@) == comps_view(parts@).take(i as int),
        decreases n - i,
    {
        let ghost pre = r@;
        let name = parts[i].name.clone();
        let path = match &parts[i].path {
            Some(p) => Some(p.clone()),
            None => None,
        };
        let c = PathComponent { name, path };
        proof {
            assert(c@ == parts@[i as int]@);
        }
        r.push(c);
        proof {
            assert(comps_view(pre).len() == pre.len());
            assert(pre.len() == i);
            assert forall|j: int| 0 <= j < i + 1 implies comps_view(r@)[j] == comps_view(
                parts@,
            ).take(i as int + 1)[j] by {
                assert(comps_view(r@)[j] == r@[j]@);
                if j < i {
                    assert(r@[j] == pre[j]);
                    assert(comps_view(pre)[j] == pre[j]@);
                } else {
                    assert(r@[j] == c);
                }
            }
            assert(comps_view(r@) =~= comps_view(parts@).take(i as int + 1));
        }
        i = i + 1;
    }
    proof {
        assert(comps_view(parts@).take(n as int) =~= comps_view(parts@));
    }
    r
}

/// Replay an event stream, producing the file-backed declarations it
/// describes, in source order.
pub fn extract_modules(events: &Vec<ModEvent>) -> (r: Vec<Module>)
    ensures
        mods_view(r@) == extract_spec(events@),
{
    let mut stack: Vec<PathComponent> = Vec::new();
    let mut out: Vec<Module> = Vec::new();
    let n = events.len();
    let mut i: usize = 0;
    proof {
        assert(comps_view(stack@) =~= extract_state(events@, 0).0);
        assert(mods_view(out@) =~= extract_state(events@, 0).1);
    }
    while i < n
        invariant
            n == events@.len(),
            i <= n,
            comps_view(stack@) == extract_state(events@, i as int).0,
            mods_view(out@) == extract_state(events@, i as int).1,
        decreases n - i,
    {
        let ghost st = extract_state(events@, i as int);
        match &events[i] {
            ModEvent::Enter { name, attrs, has_body } => {
                let path = find_override(attrs);
                let comp = PathComponent { name: name.clone(), path };
                proof {
                    assert(comp@ == (ComponentView {
                        name: name@,
                        path: first_override(attrs@),
                    }));
                }
                let ghost spre = stack@;
                stack.push(comp);
                proof {
                    assert(comps_view(stack@) =~= comps_view(spre).push(comp@));
                }
                if !*has_body {
                    let parts = clone_components(&stack);
                    let ghost opre = out@;
                    out.push(Module { parts });
                    proof {
                        assert(mods_view(out@) =~= mods_view(opre).push(comps_view(stack@)));
                    }
                }
            },
            ModEvent::Exit => {
                if stack.len() > 0 {
                    let ghost spre = stack@;
                    stack.pop();
                    proof {
                        assert(comps_view(stack@) =~= comps_view(spre).drop_last());
                    }
                } else {
                    proof {
                        assert(comps_view(stack@).len() == 0);
                    }
                }
            },
        }
        i = i + 1;
    }
    out
}

/// The file-backed module declarations of one source text, or
/// `ParseError` where the text does not parse.
pub fn extract_modules_from_source(source: &str) -> (r: Result<Vec<Module>, Error>)
    ensures
        (r matches Ok(v) ==> (parsed_events(source@) matches Some(es) && mods_view(v@)
            == extract_spec(es))),
        (r matches Err(e) ==> (e == Error::ParseError && parsed_events(source@) is None)),
{
    match parse_mod_events(source) {
        Some(events) => Ok(extract_modules(&events)),
        None => Err(Error::ParseError),
    }
}

} // verus!
