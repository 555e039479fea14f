//! Blocks: the pieces that the content of a page is made of.
use super::color::Color;
use super::rich_text::RichText;
use super::Object;
use vstd::prelude::*;

verus! {

/// A block, as the store describes it.
#[derive(Debug)]
pub struct Block {
    pub id: String,
    pub parent: Option<serde_json::Value>,
    /// The name of the kind of block that `data` holds.
    pub type_: String,
    pub data: BlockData,
    pub created_time: String,
    pub created_by: serde_json::Value,
    pub last_edited_time: String,
    pub last_edited_by: serde_json::Value,
    pub archived: bool,
    pub has_children: bool,
}

/// What a heading holds, whatever its level.
#[derive(Debug, Clone)]
pub struct Heading {
    pub rich_text: Vec<RichText>,
    pub color: Color,
    pub is_toggleable: bool,
}

/// What a block holds, by its kind.
#[derive(Debug)]
#[allow(inconsistent_fields)]
pub enum BlockData {
    Bookmark { caption: Vec<RichText>, url: String },
    BreadCrumb,
    BulletedListItem { rich_text: Vec<RichText>, color: Color },
    Callout { rich_text: RichText, icon: Object, color: Color },
    ChildDatabase { title: String },
    ChildPage { title: String },
    Column,
    ColumnList,
    Divider,
    Embed { url: String },
    Equation { expression: String },
    File {
        caption: Vec<RichText>,
        type_: String,
        /// The file object.
        file: Object,
    },
    Heading1(Heading),
    Heading2(Heading),
    Heading3(Heading),
    Image,
    LinkPreview { url: String },
    LinkToPage { url: String },
    NumberedListItem { rich_text: Vec<RichText>, color: Color, children: Vec<Block> },
    Paragraph { rich_text: Vec<RichText>, color: Color, children: Vec<Block> },
    Pdf {
        caption: Vec<RichText>,
        type_: String,
        /// The file object.
        file: Object,
    },
    Quote,
    SyncedBlock,
    Table,
    TableOfContents,
    TableRow,
    Template,
    ToDo,
    Toggle,
    Unsupported,
    Video,
}

impl BlockData {
    /// The heading that the block holds, where it is a heading of any level.
    pub open spec fn spec_heading(&self) -> Option<Heading> {
        match *self {
            BlockData::Heading1(heading) => Some(heading),
            BlockData::Heading2(heading) => Some(heading),
            BlockData::Heading3(heading) => Some(heading),
            _ => None,
        }
    }

    /// The heading that the block holds, where it is a heading of any level.
    #[must_use]
    pub fn heading(&self) -> (res: Option<&Heading>)
        ensures
            match res {
                Some(heading) => self.spec_heading() == Some(*heading),
                None => self.spec_heading() is None,
            },
    {
        match self {
            Self::Heading1(heading) | Self::Heading2(heading) | Self::Heading3(heading) => {
                Some(heading)
            },
            _ => None,
        }
    }

    /// The block with `heading` in place of the heading that it holds; a
    /// block that is no heading stays as it is.
    pub open spec fn with_heading(&self, heading: Heading) -> BlockData {
        match *self {
            BlockData::Heading1(_) => BlockData::Heading1(heading),
            BlockData::Heading2(_) => BlockData::Heading2(heading),
            BlockData::Heading3(_) => BlockData::Heading3(heading),
            other => other,
        }
    }

    /// The heading that the block holds, to be changed in place, where the
    /// block is a heading of any level.
    pub fn heading_mut(&mut self) -> (res: Option<&mut Heading>)
        ensures
            match res {
                Some(heading) => old(self).spec_heading() == Some(*heading) && *final(self) == old(
                    self,
                ).with_heading(*final(heading)),
                None => old(self).spec_heading() is None && *final(self) == *old(self),
            },
    {
        match self {
            Self::Heading1(heading) => Some(heading),
            Self::Heading2(heading) => Some(heading),
            Self::Heading3(heading) => Some(heading),
            _ => None,
        }
    }

    /// The heading that the block held, where it was a heading of any level.
    #[must_use]
    pub fn into_heading(self) -> (res: Option<Heading>)
        ensures
            res == self.spec_heading(),
    {
        match self {
            Self::Heading1(heading) | Self::Heading2(heading) | Self::Heading3(heading) => {
                Some(heading)
            },
            _ => None,
        }
    }
}

} // verus!
