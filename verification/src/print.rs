//! Rendering definitions as Markdown.

use vstd::prelude::*;
use vstd::string::*;
use crate::lua_cats::{Define, DefineView, Definition, DefinitionView, ExtendView, views_of};

verus! {

/// `std::fmt::Error`, the error of formatting: rendering returns it in
/// its signature and never makes one.
#[verifier::external_type_specification]
#[verifier::external_body]
pub struct ExFmtError(std::fmt::Error);

/// The heading level used where the options name none.
pub const DEFAULT_HEADING_LEVEL: u8 = 2;

/// How definitions are rendered.
#[derive(Clone, Copy, Debug, PartialEq, Eq, PartialOrd, Ord, Structural)]
pub struct MarkdownOptions {
    /// Starting heading level
    pub heading_level: Option<u8>,
}

impl MarkdownOptions {
    /// The number of `#` characters that start a definition's heading.
    pub open spec fn level(self) -> nat {
        match self.heading_level {
            Some(level) => level as nat,
            None => DEFAULT_HEADING_LEVEL as nat,
        }
    }
}

impl Default for MarkdownOptions {
    fn default() -> (options: Self)
        ensures
            options.heading_level is None,
    {
        MarkdownOptions { heading_level: None }
    }
}

/// `level` characters `#`.
pub open spec fn heading_marks(level: nat) -> Seq<char> {
    Seq::new(level, |i: int| '#')
}

/// A fenced block of Lua code that holds `view`, with the blank line after
/// it.
pub open spec fn code_block(view: Seq<char>) -> Seq<char> {
    "```lua\n"@ + view + "\n```\n\n"@
}

/// One code block for each refinement, in order.
pub open spec fn extend_blocks(extends: Seq<ExtendView>) -> Seq<char>
    decreases extends.len(),
{
    if extends.len() == 0 {
        Seq::empty()
    } else {
        extend_blocks(extends.drop_last()) + code_block(extends.last().view)
    }
}

/// The code blocks of every place of definition, in order.
pub open spec fn define_blocks(defines: Seq<DefineView>) -> Seq<char>
    decreases defines.len(),
{
    if defines.len() == 0 {
        Seq::empty()
    } else {
        define_blocks(defines.drop_last()) + extend_blocks(defines.last().extends)
    }
}

/// The paragraph of a description, with the blank line after it; nothing
/// where there is no description.
pub open spec fn description_block(desc: Option<Seq<char>>) -> Seq<char> {
    match desc {
        Some(text) => text + "\n\n"@,
        None => Seq::empty(),
    }
}

/// The Markdown of one definition: the heading with the name, a blank
/// line, the description if there is one, and a code block for every
/// refinement of every place of definition.
pub open spec fn rendered(level: nat, definition: DefinitionView) -> Seq<char> {
    heading_marks(level) + " "@ + definition.name + "\n\n"@ + description_block(definition.desc)
        + define_blocks(definition.defines)
}

/// The Markdown of a definition starts with as many `#` as the heading
/// level says, and a space.
pub proof fn lemma_heading_prefix(level: nat, definition: DefinitionView)
    ensures
        rendered(level, definition).len() > level,
        forall|i: int| 0 <= i < level ==> rendered(level, definition)[i] == '#',
        rendered(level, definition)[level as int] == ' ',
{
    reveal_strlit(" ");
    let rest = definition.name + "\n\n"@ + description_block(definition.desc) + define_blocks(
        definition.defines,
    );
    assert(rendered(level, definition) =~= heading_marks(level) + " "@ + rest);
}

/// A definition without a description is rendered without a paragraph for
/// it: the code blocks follow the blank line behind the heading.
pub proof fn lemma_no_description(level: nat, definition: DefinitionView)
    requires
        definition.desc is None,
    ensures
        rendered(level, definition) == heading_marks(level) + " "@ + definition.name + "\n\n"@
            + define_blocks(definition.defines),
{
    assert(rendered(level, definition) =~= heading_marks(level) + " "@ + definition.name
        + "\n\n"@ + define_blocks(definition.defines));
}

/// The texts `parts` with `separator` between each two neighbours.
pub open spec fn joined(parts: Seq<Seq<char>>, separator: Seq<char>) -> Seq<char>
    decreases parts.len(),
{
    if parts.len() == 0 {
        Seq::empty()
    } else if parts.len() == 1 {
        parts[0]
    } else {
        joined(parts.drop_last(), separator) + separator + parts.last()
    }
}

/// The Markdown of each definition, in order.
pub open spec fn rendered_each(level: nat, definitions: Seq<DefinitionView>) -> Seq<Seq<char>> {
    Seq::new(definitions.len(), |i: int| rendered(level, definitions[i]))
}

/// Appends `level` characters `#` to `out`.
fn push_heading_marks(out: &mut String, level: u8)
    ensures
        final(out)@ == old(out)@ + heading_marks(level as nat),
{
    let mut i: u8 = 0;
    assert(heading_marks(0) =~= Seq::<char>::empty());
    while i < level
        invariant
            i <= level,
            out@ == old(out)@ + heading_marks(i as nat),
        decreases level - i,
    {
        proof {
            reveal_strlit("#");
            assert(heading_marks(i as nat) + "#"@ =~= heading_marks((i + 1) as nat));
        }
        out.append("#");
        i += 1;
    }
}

/// Appends the code blocks of every place of definition to `out`.
fn push_define_blocks(out: &mut String, defines: &Vec<Define>)
    ensures
        final(out)@ == old(out)@ + define_blocks(views_of(defines@)),
{
    let ghost all = views_of(defines@);
    let mut i: usize = 0;
    assert(all.take(0) =~= Seq::<DefineView>::empty());
    while i < defines.len()
        invariant
            i <= defines.len(),
            all == views_of(defines@),
            out@ == old(out)@ + define_blocks(all.take(i as int)),
        decreases defines.len() - i,
    {
        let extends = &defines[i].extends;
        let ghost views = views_of(extends@);
        let ghost before = out@;
        let mut j: usize = 0;
        assert(views.take(0) =~= Seq::<ExtendView>::empty());
        while j < extends.len()
            invariant
                j <= extends.len(),
                views == views_of(extends@),
                out@ == before + extend_blocks(views.take(j as int)),
            decreases extends.len() - j,
        {
            proof {
                assert(views.take(j + 1).drop_last() =~= views.take(j as int));
                assert(views.take(j + 1).last() == extends@[j as int]@);
            }
            out.append("```lua\n");
            out.append(extends[j].view.as_str());
            out.append("\n```\n\n");
            j += 1;
        }
        proof {
            assert(views.take(j as int) =~= views);
            assert(all.take(i + 1).drop_last() =~= all.take(i as int));
            assert(all.take(i + 1).last() == defines@[i as int]@);
        }
        i += 1;
    }
    assert(all.take(i as int) =~= all);
}

/// Renders definitions as Markdown.
#[derive(Debug)]
pub struct MarkdownPrinter {
    pub options: MarkdownOptions,
}

impl Default for MarkdownPrinter {
    fn default() -> (printer: Self)
        ensures
            printer.options.heading_level is None,
    {
        MarkdownPrinter { options: MarkdownOptions { heading_level: None } }
    }
}

impl MarkdownPrinter {
    pub fn new(options: MarkdownOptions) -> (printer: Self)
        ensures
            printer.options == options,
    {
        Self { options }
    }

    /// Renders the definitions one after the other, a line feed between
    /// each two. Never fails.
    pub fn print(&self, definitions: &[Definition]) -> (r: Result<String, std::fmt::Error>)
        ensures
            r matches Ok(text) && text@ == joined(
                rendered_each(self.options.level(), views_of(definitions@)),
                "\n"@,
            ),
    {
        let ghost parts = rendered_each(self.options.level(), views_of(definitions@));
        let mut out = String::new();
        let mut i: usize = 0;
        assert(parts.take(0) =~= Seq::<Seq<char>>::empty());
        while i < definitions.len()
            invariant
                i <= definitions.len(),
                parts == rendered_each(self.options.level(), views_of(definitions@)),
                out@ == joined(parts.take(i as int), "\n"@),
            decreases definitions.len() - i,
        {
            proof {
                assert(parts.take(i + 1).drop_last() =~= parts.take(i as int));
                assert(parts.take(i + 1).last() == rendered(
                    self.options.level(),
                    definitions@[i as int]@,
                ));
                if i == 0 {
                    assert(parts.take(1)[0] == parts.take(1).last());
                }
            }
            if i > 0 {
                out.append("\n");
            }
            match self.print_definition(&definitions[i]) {
                Ok(chunk) => {
                    out.append(chunk.as_str());
                },
                Err(e) => {
                    return Err(e);
                },
            }
            i += 1;
        }
        assert(parts.take(i as int) =~= parts);
        Ok(out)
    }

    /// Renders one definition. Never fails.
    pub fn print_definition(&self, node: &Definition) -> (r: Result<String, std::fmt::Error>)
        ensures
            r matches Ok(text) && text@ == rendered(self.options.level(), node@),
    {
        let heading_level: u8 = match self.options.heading_level {
            Some(level) => level,
            None => DEFAULT_HEADING_LEVEL,
        };
        let mut out = String::new();
        push_heading_marks(&mut out, heading_level);
        out.append(" ");
        out.append(node.name.as_str());
        out.append("\n\n");
        if let Some(desc) = &node.desc {
            out.append(desc.as_str());
            out.append("\n\n");
        }
        push_define_blocks(&mut out, &node.defines);
        Ok(out)
    }
}

} // verus!
