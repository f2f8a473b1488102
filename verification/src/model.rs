use vstd::prelude::*;

verus! {

/// A position in a source file. The path is kept as its text.
#[derive(Debug, Clone)]
pub struct FilePosition {
    pub file: String,
    pub line: usize,
    pub column: usize,
}

/// Metadata of a builtin (primitive) operation.
#[derive(Debug, Clone)]
pub struct PrimopMatter {
    pub name: Option<String>,
    pub args: Option<Vec<String>>,
    pub experimental: Option<bool>,
    pub arity: Option<usize>,
}

/// Where a piece of documentation comes from.
#[derive(Debug, Clone)]
pub struct SourceOrigin {
    pub position: Option<FilePosition>,
    pub path: Option<Vec<String>>,
}

/// The documentation text of an entry and its origin.
#[derive(Debug, Clone)]
pub struct ContentSource {
    pub content: Option<String>,
    pub source: Option<SourceOrigin>,
}

/// Everything known about a documented value besides its text.
#[derive(Debug, Clone)]
pub struct DocumentFrontmatter {
    pub title: String,
    pub path: Vec<String>,
    pub aliases: Option<Vec<Vec<String>>>,
    pub signature: Option<String>,
    pub is_primop: Option<bool>,
    pub primop_meta: Option<PrimopMatter>,
    pub is_functor: Option<bool>,
    pub attr_position: Option<FilePosition>,
    pub attr_expr: Option<String>,
    pub lambda_position: Option<FilePosition>,
    pub lambda_expr: Option<String>,
    pub count_applied: Option<usize>,
    pub content_meta: Option<SourceOrigin>,
}

/// One documented value.
#[derive(Debug, Clone)]
pub struct Document {
    pub meta: DocumentFrontmatter,
    pub content: Option<ContentSource>,
}

/// The name under which the rest of the library refers to a document.
pub type DocItem = Document;

impl Document {
    /// The characters of the document's title.
    pub open spec fn title_view(self) -> Seq<char> {
        self.meta.title@
    }

    /// The document's text, where both the content record and its text are present.
    pub open spec fn content_view(self) -> Option<Seq<char>> {
        match self.content {
            Some(c) => match c.content {
                Some(s) => Some(s@),
                None => None,
            },
            None => None,
        }
    }

    /// The title of the document.
    pub fn title(&self) -> (t: &str)
        ensures
            t@ == self.title_view(),
    {
        self.meta.title.as_str()
    }

    /// The documentation text, if the document carries one.
    pub fn content(&self) -> (c: Option<&String>)
        ensures
            c is Some <==> self.content_view() is Some,
            c matches Some(s) ==> s@ == self.content_view()->0,
    {
        match &self.content {
            Some(src) => match &src.content {
                Some(s) => Some(s),
                None => None,
            },
            None => None,
        }
    }
}

} // verus!
