//! What an inspection of a message shows: the sections, the templates, or
//! both under headers.

use vstd::prelude::*;
use crate::scan::Message;
use crate::section::Section;
use crate::template::list_templates;
use crate::template::list_templates_spec;
use crate::template::TemplateInfo;

verus! {

/// One block of an inspection.
pub enum InspectItem<'i> {
    /// The sections of the message, one per line.
    Sections(&'i Vec<Section>),
    /// The distinct templates of the message, one per line.
    Templates(Vec<TemplateInfo>),
}

impl<'i> InspectItem<'i> {
    /// The number of lines of the block.
    pub open spec fn lines(&self) -> nat {
        match self {
            InspectItem::Sections(sects) => sects@.len(),
            InspectItem::Templates(tmpls) => tmpls@.len(),
        }
    }

    /// The header of the block.
    pub fn title(&self) -> (t: &'static str)
        ensures
            self is Sections ==> t@ == "Sections"@,
            self is Templates ==> t@ == "Templates"@,
    {
        match self {
            InspectItem::Sections(_) => "Sections",
            InspectItem::Templates(_) => "Templates",
        }
    }

    /// The number of lines of the block.
    pub fn len(&self) -> (n: usize)
        ensures
            n == self.lines(),
    {
        match self {
            InspectItem::Sections(sects) => sects.len(),
            InspectItem::Templates(tmpls) => tmpls.len(),
        }
    }
}

/// The blocks of an inspection in the order in which they are shown.
pub struct InspectView<'i> {
    pub items: Vec<InspectItem<'i>>,
}

/// The lines that the first `n` blocks take, with one line more for each if
/// they have headers.
pub open spec fn block_lines(items: Seq<InspectItem>, n: nat, headers: bool) -> nat
    decreases n,
{
    if n == 0 {
        0
    } else {
        block_lines(items, (n - 1) as nat, headers) + items[n - 1].lines() + if headers {
            1nat
        } else {
            0nat
        }
    }
}

impl<'i> InspectView<'i> {
    /// Blocks are shown under headers when there are two or more.
    pub open spec fn headed(&self) -> bool {
        self.items@.len() >= 2
    }

    /// The lines that the view takes: those of the blocks and their headers,
    /// and an empty line between two blocks.
    pub open spec fn total_lines(&self) -> nat {
        if self.items@.len() == 0 {
            0
        } else {
            (block_lines(self.items@, self.items@.len(), self.headed()) + self.items@.len()
                - 1) as nat
        }
    }

    /// A view with no block.
    pub fn new() -> (view: Self)
        ensures
            view.items@.len() == 0,
    {
        InspectView { items: Vec::new() }
    }

    /// The view of a message that was asked for: its sections, its
    /// templates, or both when both or neither were asked for. The sections
    /// come first.
    pub fn of_message(message: &'i Message, sections: bool, templates: bool) -> (view: Self)
        requires
            message.wf(),
        ensures
            view.items@.len() == if sections == templates {
                2nat
            } else {
                1nat
            },
            sections || !templates ==> (view.items@[0] matches InspectItem::Sections(list)
                && list@ == message@.sections),
            templates || !sections ==> (view.items@.last() matches InspectItem::Templates(list)
                && list@ == list_templates_spec(message@)),
    {
        let mut view = InspectView::new();
        if sections || !templates {
            view.add(InspectItem::Sections(message.sections()));
        }
        if templates || !sections {
            view.add(InspectItem::Templates(list_templates(message)));
        }
        view
    }

    /// Puts a block at the end of the view.
    pub fn add(&mut self, item: InspectItem<'i>)
        ensures
            final(self).items@ == old(self).items@.push(item),
    {
        self.items.push(item);
    }

    /// Whether the blocks are shown under headers.
    pub fn with_headers(&self) -> (b: bool)
        ensures
            b == self.headed(),
    {
        !(self.items.len() < 2)
    }

    /// Whether the view takes more lines than a terminal of the given
    /// height shows at once.
    pub fn taller_than(&self, height: u16) -> (b: bool)
        requires
            self.total_lines() <= usize::MAX,
        ensures
            b == (self.total_lines() > height),
    {
        self.num_lines() > height as usize
    }

    /// The number of lines that the view takes. A view with no block takes
    /// none.
    pub fn num_lines(&self) -> (count: usize)
        requires
            self.total_lines() <= usize::MAX,
        ensures
            count == self.total_lines(),
    {
        let n: usize = self.items.len();
        if n == 0 {
            return 0;
        }
        let headers: bool = self.with_headers();
        let mut count: usize = 0;
        let mut i: usize = 0;
        while i < n
            invariant
                n == self.items@.len(),
                i <= n,
                headers == self.headed(),
                count == block_lines(self.items@, i as nat, headers),
                block_lines(self.items@, n as nat, headers) + n - 1 <= usize::MAX,
            decreases n - i,
        {
            proof {
                lemma_block_lines_grow(self.items@, (i + 1) as nat, n as nat, headers);
            }
            if headers {
                count = count + 1;
            }
            count = count + self.items[i].len();
            i = i + 1;
        }
        count = count + (n - 1);
        count
    }
}

/// More blocks take at least as many lines.
pub proof fn lemma_block_lines_grow(items: Seq<InspectItem>, m: nat, n: nat, headers: bool)
    requires
        m <= n,
    ensures
        block_lines(items, m, headers) <= block_lines(items, n, headers),
    decreases n,
{
    if m < n {
        lemma_block_lines_grow(items, m, (n - 1) as nat, headers);
    }
}

} // verus!
