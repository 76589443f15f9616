//! Viewports: the attachments a framebuffer is made of, the check that they
//! can form one, and how long the framebuffer is kept.
use vstd::prelude::*;

verus! {

/// What an attachment holds, as far as a layout's validity goes.
#[derive(Clone, Copy, PartialEq, Eq, Structural, Debug)]
pub enum AttachmentFormat {
    Color,
    Depth,
    Stencil,
}

/// When the graphics context may delete a viewport's framebuffer: when the
/// viewport is dropped, or once it went unused for a duration (in seconds
/// and nanoseconds).
#[derive(Clone, Copy, PartialEq, Eq, Structural, Debug)]
pub enum RawFramebufferLifeHint {
    WhenDropped,
    InDuration(u64, u32),
}

impl RawFramebufferLifeHint {
    /// Kept for one second.
    pub fn default() -> (r: RawFramebufferLifeHint)
        ensures
            r == RawFramebufferLifeHint::InDuration(1, 0),
    {
        RawFramebufferLifeHint::InDuration(1, 0)
    }
}

/// The number of attachments of a format in a layout.
pub open spec fn format_count(d: Seq<(AttachmentFormat, (u16, u16))>, f: AttachmentFormat) -> nat
    decreases d.len(),
{
    if d.len() == 0 {
        0
    } else {
        format_count(d.drop_last(), f) + if d.last().0 == f {
            1nat
        } else {
            0nat
        }
    }
}

/// Whether attachments can form one framebuffer: there is at least one,
/// at most one depth and one stencil attachment, and all have the size of
/// the first.
pub open spec fn layout_ok(d: Seq<(AttachmentFormat, (u16, u16))>) -> bool {
    &&& d.len() > 0
    &&& format_count(d, AttachmentFormat::Depth) <= 1
    &&& format_count(d, AttachmentFormat::Stencil) <= 1
    &&& forall|i: int| 0 <= i < d.len() ==> (#[trigger] d[i]).1 == d[0].1
}

/// Checks that attachments can form one framebuffer.
pub fn is_valid(descriptors: &Vec<(AttachmentFormat, (u16, u16))>) -> (r: bool)
    ensures
        r == layout_ok(descriptors@),
{
    let n = descriptors.len();
    if n == 0 {
        return false;
    }
    let main_size = descriptors[0].1;
    let mut depth: usize = 0;
    let mut stencil: usize = 0;
    let mut sizes_ok = true;
    let mut i: usize = 0;
    while i < n
        invariant
            n == descriptors@.len(),
            n > 0,
            main_size == descriptors@[0].1,
            i <= n,
            depth == format_count(descriptors@.subrange(0, i as int), AttachmentFormat::Depth),
            stencil == format_count(descriptors@.subrange(0, i as int), AttachmentFormat::Stencil),
            depth <= i,
            stencil <= i,
            sizes_ok == forall|j: int| 0 <= j < i ==> (#[trigger] descriptors@[j]).1 == main_size,
        decreases n - i,
    {
        proof {
            assert(descriptors@.subrange(0, i + 1).drop_last() =~= descriptors@.subrange(0, i as int));
        }
        let (format, size) = descriptors[i];
        match format {
            AttachmentFormat::Depth => {
                depth = depth + 1;
            },
            AttachmentFormat::Stencil => {
                stencil = stencil + 1;
            },
            AttachmentFormat::Color => {},
        }
        if size.0 != main_size.0 || size.1 != main_size.1 {
            sizes_ok = false;
        }
        proof {
            if sizes_ok {
                assert forall|j: int| 0 <= j < i + 1 implies (#[trigger] descriptors@[j]).1 == main_size by {}
            } else if size == main_size {
                assert(!(forall|j: int| 0 <= j < i ==> (#[trigger] descriptors@[j]).1 == main_size));
            }
        }
        i = i + 1;
    }
    proof {
        assert(descriptors@.subrange(0, n as int) =~= descriptors@);
    }
    depth <= 1 && stencil <= 1 && sizes_ok
}

/// A viewport over a framebuffer: how long the framebuffer is kept, its
/// size, and its name.
#[derive(Clone, Copy, Debug)]
pub struct Viewport {
    pub lifetime_hint: RawFramebufferLifeHint,
    pub size: (u32, u32),
    pub name: u32,
}

impl Viewport {
    /// A viewport with the given attachments over the framebuffer named
    /// `framebuffer`; `None` where the attachments cannot form one
    /// framebuffer. Its size is that of the first attachment.
    pub fn new(descriptors: &Vec<(AttachmentFormat, (u16, u16))>, hint: RawFramebufferLifeHint, framebuffer: u32) -> (r: Option<Viewport>)
        ensures
            r is Some <==> layout_ok(descriptors@),
            r matches Some(v) ==> v == (Viewport {
                lifetime_hint: hint,
                size: (descriptors@[0].1.0 as u32, descriptors@[0].1.1 as u32),
                name: framebuffer,
            }),
    {
        if !is_valid(descriptors) {
            return None;
        }
        let size = descriptors[0].1;
        Some(Viewport { lifetime_hint: hint, size: (size.0 as u32, size.1 as u32), name: framebuffer })
    }

    /// The size of the viewport.
    pub fn size(&self) -> (r: (u32, u32))
        ensures
            r == self.size,
    {
        self.size
    }

    /// How long the framebuffer is kept.
    pub fn hint(&self) -> (r: RawFramebufferLifeHint)
        ensures
            r == self.lifetime_hint,
    {
        self.lifetime_hint
    }

    /// The name of the framebuffer.
    pub fn name(&self) -> (r: u32)
        ensures
            r == self.name,
    {
        self.name
    }
}

} // verus!
