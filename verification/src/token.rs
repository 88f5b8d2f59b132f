//! Tokens: what the scanner hands to the grammar engine.

use vstd::prelude::*;

verus! {

/// A half-open range `[start, end)` of byte offsets into the source buffer.
#[derive(Clone, Copy, PartialEq, Eq, Debug, Structural)]
pub struct Span {
    pub start: usize,
    pub end: usize,
}

impl Span {
    pub open spec fn spec_new(start: int, end: int) -> Span {
        Span { start: start as usize, end: end as usize }
    }

    /// Whether the span is a range of a buffer of `len` bytes.
    pub open spec fn spec_within(self, len: int) -> bool {
        self.start <= self.end && self.end <= len
    }

    /// The bytes of `buf` that the span covers.
    pub open spec fn spec_bytes_of(self, buf: Seq<u8>) -> Seq<u8> {
        crate::ascii::spec_slice(buf, self.start as int, self.end as int)
    }

    pub fn new(start: usize, end: usize) -> (span: Span)
        ensures
            span == Span::spec_new(start as int, end as int),
            span.start == start,
            span.end == end,
    {
        Span { start, end }
    }

    /// The number of bytes covered; zero for a span that ends before it starts.
    pub fn len(&self) -> (n: usize)
        ensures
            n == if self.start <= self.end {
                self.end - self.start
            } else {
                0
            },
    {
        if self.start <= self.end {
            self.end - self.start
        } else {
            0
        }
    }

    pub fn is_empty(&self) -> (r: bool)
        ensures
            r == (self.end <= self.start),
    {
        self.end <= self.start
    }

    /// The bytes of `buf` that the span covers.
    pub fn bytes_of<'a>(&self, buf: &'a [u8]) -> (out: &'a [u8])
        requires
            self.spec_within(buf@.len() as int),
        ensures
            out@ == self.spec_bytes_of(buf@),
    {
        vstd::slice::slice_subrange(buf, self.start, self.end)
    }
}

/// The name of a sub-span of a token.
#[derive(Clone, Copy, PartialEq, Eq, Debug, Structural)]
pub enum FieldName {
    /// The interior of an expression, without the whitespace that ends it.
    Content,
    /// The part of a namespaced tag name before the colon.
    Namespace,
    /// A plain tag or attribute name, or the local part of a namespaced or
    /// directive name.
    Name,
    /// The first part of a dotted tag name.
    Object,
    /// Each later part of a dotted tag name.
    Property,
    /// The expression in the head of a block start.
    Expression,
    /// The expression of a branch or of a tag.
    ExpressionValue,
    /// The pattern bound by `as`, or by the short forms of an await block.
    Binding,
    /// The word `then` or `catch` in the head of an await block.
    ShortForm,
    /// The index pattern after the comma of an each block.
    Index,
    /// The key expression in the parentheses of an each block.
    Key,
    /// The word, or words, that name the kind of a block, branch or tag.
    Kind,
    /// The word before the colon of a directive attribute.
    Directive,
    /// One modifier of a directive attribute.
    Modifier,
    /// A literal part of an attribute value.
    ValueText,
    /// An expression inside an attribute value, braces included.
    ValueExpression,
}

/// A named sub-span of a token.
#[derive(Clone, Copy, PartialEq, Eq, Debug, Structural)]
pub struct Field {
    pub name: FieldName,
    pub span: Span,
}

impl Field {
    pub open spec fn spec_new(name: FieldName, start: int, end: int) -> Field {
        Field { name, span: Span::spec_new(start, end) }
    }

    pub fn new(name: FieldName, start: usize, end: usize) -> (field: Field)
        ensures
            field == Field::spec_new(name, start as int, end as int),
    {
        Field { name, span: Span { start, end } }
    }
}

/// What went wrong at a token. None of these stops the scan.
#[derive(Clone, Copy, PartialEq, Eq, Debug, Structural)]
pub enum ScanError {
    /// The input ended inside the construct.
    UnterminatedConstruct,
    /// An end tag, a branch or a block end that matches nothing open.
    MismatchedClose,
    /// A head after `{#`, `{:`, `{/` or `{@` of no known form.
    InvalidHeadShape,
}

/// The three forms of a character reference.
#[derive(Clone, Copy, PartialEq, Eq, Debug, Structural)]
pub enum ReferenceKind {
    Named,
    Decimal,
    Hexadecimal,
}

/// How the value of an attribute is written.
#[derive(Clone, Copy, PartialEq, Eq, Debug, Structural)]
pub enum ValueKind {
    /// No value.
    Missing,
    /// Between single or double quotes.
    Quoted,
    /// Bare text.
    Unquoted,
    /// One expression and nothing else.
    ExpressionValued,
    /// Bare text and expressions side by side.
    MixedTextAndExpression,
}

/// The four forms of an attribute.
#[derive(Clone, Copy, PartialEq, Eq, Debug, Structural)]
pub enum AttributeShape {
    /// `name` or `name=value`.
    Plain(ValueKind),
    /// `{name}`.
    Shorthand,
    /// `{...expression}`.
    Spread,
    /// `prefix:name`, with modifiers after `|` and, possibly, a value.
    Directive(ValueKind),
}

/// The kinds of block.
#[derive(Clone, Copy, PartialEq, Eq, Debug, Structural)]
pub enum BlockKind {
    If,
    Each,
    Await,
    Key,
    Snippet,
}

/// The kinds of branch inside a block.
#[derive(Clone, Copy, PartialEq, Eq, Debug, Structural)]
pub enum BranchKind {
    Else,
    ElseIf,
    Then,
    Catch,
}

/// The kinds of `{@...}` tag.
#[derive(Clone, Copy, PartialEq, Eq, Debug, Structural)]
pub enum TagKind {
    Html,
    Const,
    Debug,
    Render,
    Attach,
}

/// What a token is.
#[derive(Clone, Copy, PartialEq, Eq, Debug, Structural)]
pub enum TokenKind {
    /// Character data.
    Text,
    /// `&name;`, `&#10;` or `&#x0a;`.
    CharacterReference(ReferenceKind),
    /// `<!-- ... -->`, or `<! ... >` that is no document type.
    Comment,
    /// `<!doctype ... >`.
    Doctype,
    /// `<` and the name of a start tag.
    StartTagOpen,
    /// Whitespace between the parts of a tag.
    TagSpace,
    /// A byte inside a tag that is part of nothing.
    Stray,
    /// One attribute, with its value if it has one.
    Attribute(AttributeShape),
    /// The `>` that ends a start tag.
    StartTagClose,
    /// The `/>` that ends a start tag and its element.
    SelfClosingTagClose,
    /// A whole end tag.
    EndTag,
    /// The content of a raw text element.
    RawText,
    /// `{expression}` in character data.
    Expression,
    /// `{#kind ...}`.
    BlockStart(BlockKind),
    /// `{:kind ...}`.
    BlockBranch(BranchKind),
    /// `{/kind}`.
    BlockEnd(BlockKind),
    /// `{@kind ...}`.
    Tag(TagKind),
    /// A head of no known form, up to its closing brace.
    Malformed,
}

/// The unit handed to the grammar engine.
#[derive(Debug)]
pub struct Token {
    pub kind: TokenKind,
    /// The bytes that the token consumes.
    pub span: Span,
    /// The named sub-spans, in source order.
    pub fields: Vec<Field>,
    /// How many open elements this token closed that had no end tag of
    /// their own.
    pub implicit_closes: usize,
    pub error: Option<ScanError>,
}

/// A token as contracts speak of it.
pub struct TokenView {
    pub kind: TokenKind,
    pub span: Span,
    pub fields: Seq<Field>,
    pub implicit_closes: usize,
    pub error: Option<ScanError>,
}

impl View for Token {
    type V = TokenView;

    open spec fn view(&self) -> TokenView {
        TokenView {
            kind: self.kind,
            span: self.span,
            fields: self.fields@,
            implicit_closes: self.implicit_closes,
            error: self.error,
        }
    }
}

/// Whether the sub-spans stand in source order inside `[lo, hi]`: the
/// first starts at or after `lo`, each other starts at or after the end of
/// the one before it, none ends before it starts, and the last ends at or
/// before `hi`.
pub open spec fn spec_in_order(fields: Seq<Field>, lo: int, hi: int) -> bool
    decreases fields.len(),
{
    if fields.len() == 0 {
        lo <= hi
    } else {
        &&& lo <= fields[0].span.start
        &&& fields[0].span.start <= fields[0].span.end
        &&& spec_in_order(fields.skip(1), fields[0].span.end as int, hi)
    }
}

/// The first sub-span of the name among `fields`.
pub open spec fn spec_first_field(fields: Seq<Field>, name: FieldName) -> Option<Span>
    decreases fields.len(),
{
    if fields.len() == 0 {
        None
    } else if fields[0].name == name {
        Some(fields[0].span)
    } else {
        spec_first_field(fields.skip(1), name)
    }
}

/// The sub-spans of the name among `fields`, in order.
pub open spec fn spec_fields_named(fields: Seq<Field>, name: FieldName) -> Seq<Span>
    decreases fields.len(),
{
    if fields.len() == 0 {
        Seq::empty()
    } else {
        spec_fields_named(fields.drop_last(), name) + if fields.last().name == name {
            seq![fields.last().span]
        } else {
            Seq::empty()
        }
    }
}

impl TokenView {
    /// A token without sub-spans, implicit closes or error.
    pub open spec fn plain(kind: TokenKind, start: int, end: int) -> TokenView {
        TokenView {
            kind,
            span: Span::spec_new(start, end),
            fields: Seq::empty(),
            implicit_closes: 0,
            error: None,
        }
    }

    /// The token with these sub-spans.
    pub open spec fn with_fields(self, fields: Seq<Field>) -> TokenView {
        TokenView { fields, ..self }
    }

    /// The token with this mark.
    pub open spec fn with_error(self, error: Option<ScanError>) -> TokenView {
        TokenView { error, ..self }
    }
}

impl Token {
    /// A token without sub-spans, implicit closes or error.
    pub fn plain(kind: TokenKind, start: usize, end: usize) -> (token: Token)
        ensures
            token@ == TokenView::plain(kind, start as int, end as int),
    {
        Token {
            kind,
            span: Span { start, end },
            fields: Vec::new(),
            implicit_closes: 0,
            error: None,
        }
    }

    /// The first sub-span of the name, if there is one.
    pub fn field(&self, name: FieldName) -> (found: Option<Span>)
        ensures
            found == spec_first_field(self@.fields, name),
    {
        let mut i: usize = 0;
        assert(self.fields@.skip(0) =~= self.fields@);
        while i < self.fields.len()
            invariant
                i <= self.fields@.len(),
                spec_first_field(self.fields@, name) == spec_first_field(
                    self.fields@.skip(i as int),
                    name,
                ),
            decreases self.fields@.len() - i,
        {
            let f = self.fields[i];
            assert(self.fields@.skip(i as int)[0] == f);
            if f.name == name {
                return Some(f.span);
            }
            assert(self.fields@.skip(i as int).skip(1) =~= self.fields@.skip(i + 1));
            i += 1;
        }
        assert(self.fields@.skip(i as int).len() == 0);
        None
    }

    /// Every sub-span of the name, in source order.
    pub fn fields_named(&self, name: FieldName) -> (found: Vec<Span>)
        ensures
            found@ == spec_fields_named(self@.fields, name),
    {
        let mut found: Vec<Span> = Vec::new();
        let mut i: usize = 0;
        while i < self.fields.len()
            invariant
                i <= self.fields@.len(),
                found@ == spec_fields_named(self.fields@.take(i as int), name),
            decreases self.fields@.len() - i,
        {
            let f = self.fields[i];
            assert(self.fields@.take(i + 1).drop_last() =~= self.fields@.take(i as int));
            assert(self.fields@.take(i + 1).last() == f);
            if f.name == name {
                found.push(f.span);
            }
            i += 1;
        }
        assert(self.fields@.take(i as int) =~= self.fields@);
        found
    }
}

} // verus!
