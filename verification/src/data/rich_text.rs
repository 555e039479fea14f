//! Rich text: the pieces that the text of a block is made of.
use super::Annotations;
use vstd::prelude::*;
use vstd::string::StringExecFns;

verus! {

/// The target of a link.
#[derive(Debug, Clone, PartialEq, Eq, Hash)]
pub struct Link {
    pub url: String,
}

/// What a piece of rich text is.
#[derive(Debug, Clone, PartialEq, Eq, Hash)]
pub enum RichTextData {
    Text { content: String, link: Option<Link> },
    Mention { type_: String },
    Equation { expression: String },
}

/// A piece of rich text.
#[derive(Debug, Clone, PartialEq, Eq, Hash)]
pub struct RichText {
    pub type_: String,
    pub data: RichTextData,
    pub annotations: Annotations,
    pub plain_text: String,
    pub href: Option<String>,
}

impl RichText {
    /// The piece as Markdown: text as it stands, or as a link where it has
    /// one; an equation between `$$`; a mention as `@` and what it mentions.
    pub open spec fn markdown(&self) -> Seq<char> {
        match self.data {
            RichTextData::Text { content, link: None } => content@,
            RichTextData::Text { content, link: Some(link) } => "["@ + content@ + "]("@ + link.url@
                + ")"@,
            RichTextData::Equation { expression } => "$$"@ + expression@ + "$$"@,
            RichTextData::Mention { type_ } => "@"@ + type_@,
        }
    }

    /// Renders the piece as Markdown.
    pub fn to_markdown(&self) -> (res: String)
        ensures
            res@ == self.markdown(),
    {
        match &self.data {
            RichTextData::Text { content, link } => {
                match link {
                    Some(link) => {
                        let mut res = String::from_str("[");
                        res.append(content.as_str());
                        res.append("](");
                        res.append(link.url.as_str());
                        res.append(")");
                        res
                    },
                    None => content.clone(),
                }
            },
            RichTextData::Equation { expression } => {
                let mut res = String::from_str("$$");
                res.append(expression.as_str());
                res.append("$$");
                res
            },
            RichTextData::Mention { type_ } => {
                let mut res = String::from_str("@");
                res.append(type_.as_str());
                res
            },
        }
    }
}

} // verus!
