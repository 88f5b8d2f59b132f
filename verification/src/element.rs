//! The element classification table: which names are void, which hold raw
//! or escapable raw text, and which may leave their end tag out, with the
//! start tags that close them.

use vstd::prelude::*;
use vstd::string::StringSliceAdditionalSpecFns;

verus! {

/// The start tags that close an element whose end tag may be left out.
#[derive(Clone, Copy, PartialEq, Eq, Debug, Structural)]
pub enum CloseTrigger {
    /// A list item: closed by the next list item.
    ListItem,
    /// A description term or detail: closed by the next term or detail.
    DescriptionEntry,
    /// A paragraph: closed by the start of any block-level element.
    Paragraph,
    /// A ruby text or ruby parenthesis: closed by the next of either.
    RubyText,
    /// An option group: closed by the next option group.
    OptionGroup,
    /// An option: closed by the next option or option group.
    OptionEntry,
    /// A table head, body or foot: closed by the next table section.
    TableSection,
    /// A table row: closed by the next row or table section.
    TableRow,
    /// A table cell: closed by the next cell, row or table section.
    TableCell,
}

/// What the table says of an element name.
#[derive(Clone, Copy, PartialEq, Eq, Debug, Structural)]
pub enum ElementClass {
    /// Never has content nor an end tag.
    Void,
    /// Content is uninterpreted text up to the end tag.
    RawText,
    /// Content is text and character references up to the end tag.
    EscapableRawText,
    /// Content is markup; the end tag is required.
    Normal,
    /// Content is markup; the end tag may be left out, and the element is
    /// closed by the start tags of the trigger.
    OptionalEndTag(CloseTrigger),
}

/// How the content of an open element is scanned.
#[derive(Clone, Copy, PartialEq, Eq, Debug, Structural)]
pub enum ContentMode {
    Markup,
    RawText,
    EscapableRawText,
}

/// Which of the three languages is scanned. Each layer accepts what the one
/// before it accepts.
#[derive(Clone, Copy, PartialEq, Eq, Debug, Structural)]
pub enum Layer {
    /// Plain markup. Element names are matched without regard to case.
    Base,
    /// Markup with `{...}` expressions and expression-aware attributes.
    /// Element names are matched as written, so that a capitalised name is a
    /// component of its own and never a void or raw-text element.
    Expression,
    /// The expression layer with `{#...}`, `{:...}`, `{/...}` and `{@...}`.
    ControlFlow,
}

impl Layer {
    /// Whether `{` opens an expression.
    pub open spec fn spec_has_expressions(self) -> bool {
        self != Layer::Base
    }

    /// Whether `{#`, `{:`, `{/` and `{@` open block and tag heads.
    pub open spec fn spec_has_blocks(self) -> bool {
        self == Layer::ControlFlow
    }

    pub fn has_expressions(self) -> (r: bool)
        ensures
            r == self.spec_has_expressions(),
    {
        match self {
            Layer::Base => false,
            _ => true,
        }
    }

    pub fn has_blocks(self) -> (r: bool)
        ensures
            r == self.spec_has_blocks(),
    {
        match self {
            Layer::ControlFlow => true,
            _ => false,
        }
    }
}

/// The thirteen void element names.
pub open spec fn spec_is_void_name(name: Seq<u8>) -> bool {
    name == "area".spec_bytes()
    || name == "base".spec_bytes()
    || name == "br".spec_bytes()
    || name == "col".spec_bytes()
    || name == "embed".spec_bytes()
    || name == "hr".spec_bytes()
    || name == "img".spec_bytes()
    || name == "input".spec_bytes()
    || name == "link".spec_bytes()
    || name == "meta".spec_bytes()
    || name == "source".spec_bytes()
    || name == "track".spec_bytes()
    || name == "wbr".spec_bytes()
}

/// The class of a name as the table has it. The table's names are in lower
/// case; a name that is not in it is `Normal`.
pub open spec fn spec_classify(name: Seq<u8>) -> ElementClass {
    if spec_is_void_name(name) {
        ElementClass::Void
    } else if name == "script".spec_bytes()
        || name == "style".spec_bytes() {
        ElementClass::RawText
    } else if name == "textarea".spec_bytes()
        || name == "title".spec_bytes() {
        ElementClass::EscapableRawText
    } else if name == "li".spec_bytes() {
        ElementClass::OptionalEndTag(CloseTrigger::ListItem)
    } else if name == "dt".spec_bytes()
        || name == "dd".spec_bytes() {
        ElementClass::OptionalEndTag(CloseTrigger::DescriptionEntry)
    } else if name == "p".spec_bytes() {
        ElementClass::OptionalEndTag(CloseTrigger::Paragraph)
    } else if name == "rt".spec_bytes()
        || name == "rp".spec_bytes() {
        ElementClass::OptionalEndTag(CloseTrigger::RubyText)
    } else if name == "optgroup".spec_bytes() {
        ElementClass::OptionalEndTag(CloseTrigger::OptionGroup)
    } else if name == "option".spec_bytes() {
        ElementClass::OptionalEndTag(CloseTrigger::OptionEntry)
    } else if name == "thead".spec_bytes()
        || name == "tbody".spec_bytes()
        || name == "tfoot".spec_bytes() {
        ElementClass::OptionalEndTag(CloseTrigger::TableSection)
    } else if name == "tr".spec_bytes() {
        ElementClass::OptionalEndTag(CloseTrigger::TableRow)
    } else if name == "td".spec_bytes()
        || name == "th".spec_bytes() {
        ElementClass::OptionalEndTag(CloseTrigger::TableCell)
    } else {
        ElementClass::Normal
    }
}

/// Whether the start tag of `name` is one of the trigger's.
pub open spec fn spec_triggers(trigger: CloseTrigger, name: Seq<u8>) -> bool {
    match trigger {
        CloseTrigger::ListItem => {
            name == "li".spec_bytes()
        },
        CloseTrigger::DescriptionEntry => {
            name == "dt".spec_bytes()
            || name == "dd".spec_bytes()
        },
        CloseTrigger::Paragraph => {
            name == "address".spec_bytes()
            || name == "article".spec_bytes()
            || name == "aside".spec_bytes()
            || name == "blockquote".spec_bytes()
            || name == "details".spec_bytes()
            || name == "div".spec_bytes()
            || name == "dl".spec_bytes()
            || name == "fieldset".spec_bytes()
            || name == "figcaption".spec_bytes()
            || name == "figure".spec_bytes()
            || name == "footer".spec_bytes()
            || name == "form".spec_bytes()
            || name == "h1".spec_bytes()
            || name == "h2".spec_bytes()
            || name == "h3".spec_bytes()
            || name == "h4".spec_bytes()
            || name == "h5".spec_bytes()
            || name == "h6".spec_bytes()
            || name == "header".spec_bytes()
            || name == "hgroup".spec_bytes()
            || name == "hr".spec_bytes()
            || name == "main".spec_bytes()
            || name == "menu".spec_bytes()
            || name == "nav".spec_bytes()
            || name == "ol".spec_bytes()
            || name == "p".spec_bytes()
            || name == "pre".spec_bytes()
            || name == "search".spec_bytes()
            || name == "section".spec_bytes()
            || name == "table".spec_bytes()
            || name == "ul".spec_bytes()
        },
        CloseTrigger::RubyText => {
            name == "rt".spec_bytes()
            || name == "rp".spec_bytes()
        },
        CloseTrigger::OptionGroup => {
            name == "optgroup".spec_bytes()
        },
        CloseTrigger::OptionEntry => {
            name == "option".spec_bytes()
            || name == "optgroup".spec_bytes()
        },
        CloseTrigger::TableSection => {
            name == "thead".spec_bytes()
            || name == "tbody".spec_bytes()
            || name == "tfoot".spec_bytes()
        },
        CloseTrigger::TableRow => {
            name == "tr".spec_bytes()
            || name == "thead".spec_bytes()
            || name == "tbody".spec_bytes()
            || name == "tfoot".spec_bytes()
        },
        CloseTrigger::TableCell => {
            name == "td".spec_bytes()
            || name == "th".spec_bytes()
            || name == "tr".spec_bytes()
            || name == "thead".spec_bytes()
            || name == "tbody".spec_bytes()
            || name == "tfoot".spec_bytes()
        },
    }
}

/// Whether an open element of class `class` is closed by the start tag of
/// `name` without an end tag of its own.
pub open spec fn spec_closed_by(class: ElementClass, name: Seq<u8>) -> bool {
    match class {
        ElementClass::OptionalEndTag(trigger) => spec_triggers(trigger, name),
        _ => false,
    }
}

/// How the content of an element of class `class` is scanned.
pub open spec fn spec_content_mode(class: ElementClass) -> ContentMode {
    match class {
        ElementClass::RawText => ContentMode::RawText,
        ElementClass::EscapableRawText => ContentMode::EscapableRawText,
        _ => ContentMode::Markup,
    }
}

/// The form of a name under which a layer looks it up and keeps it: in
/// lower case in the base layer, as written in the others.
pub open spec fn spec_normalize(layer: Layer, name: Seq<u8>) -> Seq<u8> {
    if layer == Layer::Base {
        crate::ascii::spec_lower_seq(name)
    } else {
        name
    }
}

fn is_name(name: &[u8], word: &str) -> (r: bool)
    ensures
        r == (name@ == word.spec_bytes()),
{
    assert(name@.subrange(0, name@.len() as int) =~= name@);
    crate::ascii::is_word(name, 0, name.len(), word)
}

pub fn is_void_name(name: &[u8]) -> (r: bool)
    ensures
        r == spec_is_void_name(name@),
{
    is_name(name, "area")
    || is_name(name, "base")
    || is_name(name, "br")
    || is_name(name, "col")
    || is_name(name, "embed")
    || is_name(name, "hr")
    || is_name(name, "img")
    || is_name(name, "input")
    || is_name(name, "link")
    || is_name(name, "meta")
    || is_name(name, "source")
    || is_name(name, "track")
    || is_name(name, "wbr")
}

pub fn classify(name: &[u8]) -> (class: ElementClass)
    ensures
        class == spec_classify(name@),
{
    if is_void_name(name) {
        ElementClass::Void
    } else if is_name(name, "script")
        || is_name(name, "style") {
        ElementClass::RawText
    } else if is_name(name, "textarea")
        || is_name(name, "title") {
        ElementClass::EscapableRawText
    } else if is_name(name, "li") {
        ElementClass::OptionalEndTag(CloseTrigger::ListItem)
    } else if is_name(name, "dt")
        || is_name(name, "dd") {
        ElementClass::OptionalEndTag(CloseTrigger::DescriptionEntry)
    } else if is_name(name, "p") {
        ElementClass::OptionalEndTag(CloseTrigger::Paragraph)
    } else if is_name(name, "rt")
        || is_name(name, "rp") {
        ElementClass::OptionalEndTag(CloseTrigger::RubyText)
    } else if is_name(name, "optgroup") {
        ElementClass::OptionalEndTag(CloseTrigger::OptionGroup)
    } else if is_name(name, "option") {
        ElementClass::OptionalEndTag(CloseTrigger::OptionEntry)
    } else if is_name(name, "thead")
        || is_name(name, "tbody")
        || is_name(name, "tfoot") {
        ElementClass::OptionalEndTag(CloseTrigger::TableSection)
    } else if is_name(name, "tr") {
        ElementClass::OptionalEndTag(CloseTrigger::TableRow)
    } else if is_name(name, "td")
        || is_name(name, "th") {
        ElementClass::OptionalEndTag(CloseTrigger::TableCell)
    } else {
        ElementClass::Normal
    }
}

pub fn triggers(trigger: CloseTrigger, name: &[u8]) -> (r: bool)
    ensures
        r == spec_triggers(trigger, name@),
{
    match trigger {
        CloseTrigger::ListItem => {
            is_name(name, "li")
        },
        CloseTrigger::DescriptionEntry => {
            is_name(name, "dt")
            || is_name(name, "dd")
        },
        CloseTrigger::Paragraph => {
            is_name(name, "address")
            || is_name(name, "article")
            || is_name(name, "aside")
            || is_name(name, "blockquote")
            || is_name(name, "details")
            || is_name(name, "div")
            || is_name(name, "dl")
            || is_name(name, "fieldset")
            || is_name(name, "figcaption")
            || is_name(name, "figure")
            || is_name(name, "footer")
            || is_name(name, "form")
            || is_name(name, "h1")
            || is_name(name, "h2")
            || is_name(name, "h3")
            || is_name(name, "h4")
            || is_name(name, "h5")
            || is_name(name, "h6")
            || is_name(name, "header")
            || is_name(name, "hgroup")
            || is_name(name, "hr")
            || is_name(name, "main")
            || is_name(name, "menu")
            || is_name(name, "nav")
            || is_name(name, "ol")
            || is_name(name, "p")
            || is_name(name, "pre")
            || is_name(name, "search")
            || is_name(name, "section")
            || is_name(name, "table")
            || is_name(name, "ul")
        },
        CloseTrigger::RubyText => {
            is_name(name, "rt")
            || is_name(name, "rp")
        },
        CloseTrigger::OptionGroup => {
            is_name(name, "optgroup")
        },
        CloseTrigger::OptionEntry => {
            is_name(name, "option")
            || is_name(name, "optgroup")
        },
        CloseTrigger::TableSection => {
            is_name(name, "thead")
            || is_name(name, "tbody")
            || is_name(name, "tfoot")
        },
        CloseTrigger::TableRow => {
            is_name(name, "tr")
            || is_name(name, "thead")
            || is_name(name, "tbody")
            || is_name(name, "tfoot")
        },
        CloseTrigger::TableCell => {
            is_name(name, "td")
            || is_name(name, "th")
            || is_name(name, "tr")
            || is_name(name, "thead")
            || is_name(name, "tbody")
            || is_name(name, "tfoot")
        },
    }
}

pub fn closed_by(class: ElementClass, name: &[u8]) -> (r: bool)
    ensures
        r == spec_closed_by(class, name@),
{
    match class {
        ElementClass::OptionalEndTag(trigger) => triggers(trigger, name),
        _ => false,
    }
}

pub fn content_mode(class: ElementClass) -> (mode: ContentMode)
    ensures
        mode == spec_content_mode(class),
{
    match class {
        ElementClass::RawText => ContentMode::RawText,
        ElementClass::EscapableRawText => ContentMode::EscapableRawText,
        _ => ContentMode::Markup,
    }
}

/// The name as `layer` looks it up and keeps it.
pub fn normalize(layer: Layer, name: &[u8]) -> (out: Vec<u8>)
    ensures
        out@ == spec_normalize(layer, name@),
{
    let mut out: Vec<u8> = Vec::new();
    let fold = match layer {
        Layer::Base => true,
        _ => false,
    };
    let mut i: usize = 0;
    while i < name.len()
        invariant
            i <= name@.len(),
            out@.len() == i,
            fold == (layer == Layer::Base),
            forall|j: int|
                0 <= j < i ==> out@[j] == if fold {
                    crate::ascii::spec_lower(name@[j])
                } else {
                    name@[j]
                },
        decreases name@.len() - i,
    {
        let b = if fold {
            crate::ascii::lower(name[i])
        } else {
            name[i]
        };
        out.push(b);
        i += 1;
    }
    assert(out@ =~= spec_normalize(layer, name@));
    out
}

} // verus!
