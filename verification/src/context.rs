use vstd::prelude::*;
use vstd::string::StringSliceAdditionalSpecFns;

use crate::draw::{CommandView, DrawList};
use crate::layout::{Layout, LayoutView};
use crate::style::Style;
use crate::types::{Clip, Id, Rect, Vec2, fits};

verus! {

/// The number of container slots.
pub const POOL: usize = 48;

/// The number of tree-node slots.
pub const TREE: usize = 48;

/// The hash that an empty id scope starts from.
pub const HASH_INITIAL: u32 = 2166136261;

/// The multiplier of the hash.
pub const HASH_PRIME: u32 = 16777619;

/// One step of the FNV-1a hash.
pub open spec fn hash_step(acc: u32, byte: u8) -> u32 {
    (acc ^ (byte as u32)).wrapping_mul(HASH_PRIME)
}

/// The FNV-1a hash of `data`, starting from `seed`.
pub open spec fn hash(seed: u32, data: Seq<u8>) -> u32
    decreases data.len(),
{
    if data.len() == 0 {
        seed
    } else {
        hash_step(hash(seed, data.drop_last()), data.last())
    }
}

/// Hashing two pieces one after the other is hashing them joined.
pub proof fn law_hash_concat(seed: u32, a: Seq<u8>, b: Seq<u8>)
    ensures
        hash(hash(seed, a), b) == hash(seed, a + b),
    decreases b.len(),
{
    if b.len() == 0 {
        assert(a + b =~= a);
    } else {
        law_hash_concat(seed, a, b.drop_last());
        assert((a + b).drop_last() =~= a + b.drop_last());
        assert((a + b).last() == b.last());
    }
}

/// A window, panel or popup.
#[derive(Debug, Clone, Copy)]
pub struct Container {
    pub bounds: Rect,
    pub body: Rect,
    pub content: Vec2,
    pub scroll: Vec2,
    pub depth: i32,
    pub open: bool,
}

impl Container {
    /// A closed container with everything zero.
    pub open spec fn spec_default() -> Container {
        Container {
            bounds: Rect { x: 0, y: 0, w: 0, h: 0 },
            body: Rect { x: 0, y: 0, w: 0, h: 0 },
            content: Vec2 { x: 0, y: 0 },
            scroll: Vec2 { x: 0, y: 0 },
            depth: 0,
            open: false,
        }
    }
}

impl Default for Container {
    fn default() -> (c: Self)
        ensures
            c == Container::spec_default(),
    {
        Container {
            bounds: Rect::new(0, 0, 0, 0),
            body: Rect::new(0, 0, 0, 0),
            content: Vec2::new(0, 0),
            scroll: Vec2::new(0, 0),
            depth: 0,
            open: false,
        }
    }
}

/// A slot of a container or tree pool: the id that holds it and the frame it was last used in.
#[derive(Debug, Clone, Copy, PartialEq, Eq, Structural)]
pub struct PoolEntry {
    pub id: Id,
    pub frame: u32,
}

impl PoolEntry {
    /// A slot that nothing holds.
    pub open spec fn vacant() -> PoolEntry {
        PoolEntry { id: 0, frame: 0 }
    }
}

/// `i` is the first slot held by `id`.
pub open spec fn is_first_slot(pool: Seq<PoolEntry>, id: Id, i: int) -> bool {
    &&& 0 <= i < pool.len()
    &&& pool[i].id == id
    &&& forall|j: int| 0 <= j < i ==> pool[j].id != id
}

/// Some slot is held by `id`.
pub open spec fn pool_has(pool: Seq<PoolEntry>, id: Id) -> bool {
    exists|i: int| 0 <= i < pool.len() && pool[i].id == id
}

/// `slot` is the first of the slots used least recently.
pub open spec fn is_oldest_slot(pool: Seq<PoolEntry>, slot: int) -> bool {
    &&& 0 <= slot < pool.len()
    &&& forall|j: int| 0 <= j < pool.len() ==> pool[slot].frame <= #[trigger] pool[j].frame
    &&& forall|j: int| 0 <= j < slot ==> pool[slot].frame < #[trigger] pool[j].frame
}

/// No id other than the vacant one holds two slots of `pool`.
pub open spec fn ids_unique(pool: Seq<PoolEntry>) -> bool {
    forall|i: int, j: int|
        0 <= i < j < pool.len() && #[trigger] pool[i].id != 0 ==> pool[i].id != #[trigger] pool[j].id
}

/// Setting slot `i` to `id` keeps the ids of a pool distinct when the slot held `id` already or
/// no slot did.
pub proof fn lemma_unique_update(pool: Seq<PoolEntry>, i: int, e: PoolEntry)
    requires
        ids_unique(pool),
        0 <= i < pool.len(),
        e.id == 0 || e.id == pool[i].id || !pool_has(pool, e.id),
    ensures
        ids_unique(pool.update(i, e)),
{
    let p = pool.update(i, e);
    assert forall|a: int, b: int| 0 <= a < b < p.len() && #[trigger] p[a].id != 0 implies p[a].id
        != #[trigger] p[b].id by {
        if a == i && e.id != pool[i].id && e.id != 0 {
            assert(pool[b].id != e.id || b == i);
        } else if b == i && e.id != pool[i].id && e.id != 0 {
            assert(pool[a].id != e.id);
        }
    }
}

/// The state of the user interface: input, focus, containers and the commands of the frame.
pub struct Context {
    pub style: Style,
    pub draws: DrawList,
    pub hover: Id,
    pub focus: Id,
    pub focus_updated: bool,
    pub text_focus: Id,
    pub text_scroll: i32,
    pub cursor: usize,
    pub selection: usize,
    pub number_edit: Id,
    pub number_buf: String,
    pub scroll: Vec2,
    pub frame: u32,
    pub last_id: Id,
    pub last_bounds: Rect,
    pub last_depth: i32,
    pub mouse: Vec2,
    pub last_mouse: Vec2,
    pub delta: Vec2,
    pub scroll_delta: Vec2,
    pub mouse_down: u32,
    pub mouse_pressed: u32,
    pub key_down: u32,
    pub key_pressed: u32,
    pub input: String,
    pub clipboard: String,
    pub hover_root: Option<usize>,
    pub next_root: Option<usize>,
    pub scroll_target: Option<usize>,
    pub containers: Vec<Container>,
    pub container_pool: Vec<PoolEntry>,
    pub tree_pool: Vec<PoolEntry>,
    pub id_stack: Vec<Id>,
    pub layout_stack: Vec<Layout>,
    pub container_stack: Vec<usize>,
    pub clip_stack: Vec<Rect>,
    pub roots: Vec<usize>,
}

/// The index is a container slot.
pub open spec fn slot_ok(idx: Option<usize>) -> bool {
    idx matches Some(i) ==> i < POOL
}

/// The point `(px, py)` lies in the closed region of `r`, edges included.
pub open spec fn closed_holds(r: Rect, px: int, py: int) -> bool {
    r.x <= px <= r.x + r.w && r.y <= py <= r.y + r.h
}

impl Context {
    /// The invariant of a context.
    pub open spec fn wf(&self) -> bool {
        &&& self.containers@.len() == POOL
        &&& self.container_pool@.len() == POOL
        &&& self.tree_pool@.len() == TREE
        &&& ids_unique(self.container_pool@)
        &&& forall|i: int| 0 <= i < self.layout_stack@.len() ==> #[trigger] self.layout_stack@[i].wf()
        &&& forall|i: int|
            0 <= i < self.container_stack@.len() ==> #[trigger] self.container_stack@[i] < POOL
        &&& forall|i: int| 0 <= i < self.roots@.len() ==> #[trigger] self.roots@[i] < POOL
        &&& slot_ok(self.hover_root)
        &&& slot_ok(self.next_root)
        &&& slot_ok(self.scroll_target)
    }

    /// No tree node id other than the vacant one holds two slots.
    pub open spec fn trees_unique(&self) -> bool {
        ids_unique(self.tree_pool@)
    }

    /// The id scope: the top of the id stack, or the initial hash when it is empty.
    pub open spec fn id_seed(&self) -> u32 {
        if self.id_stack@.len() == 0 {
            HASH_INITIAL
        } else {
            self.id_stack@.last()
        }
    }

    /// The current clip rectangle: the top of the clip stack, or the unbounded one.
    pub open spec fn spec_clip(&self) -> Rect {
        if self.clip_stack@.len() == 0 {
            Rect::spec_unbounded()
        } else {
            self.clip_stack@.last()
        }
    }

    /// The layout of the innermost container.
    pub open spec fn top_layout(&self) -> Layout {
        self.layout_stack@.last()
    }

    /// The index of the innermost container.
    pub open spec fn top_container(&self) -> int {
        self.container_stack@.last() as int
    }

    pub fn new() -> (ctx: Self)
        ensures
            ctx.wf(),
            ctx.trees_unique(),
            ctx.style.is_default(),
            ctx.draws@ == Seq::<CommandView>::empty(),
            ctx.hover == 0,
            ctx.focus == 0,
            !ctx.focus_updated,
            ctx.text_focus == 0,
            ctx.text_scroll == 0,
            ctx.cursor == 0,
            ctx.selection == 0,
            ctx.number_edit == 0,
            ctx.number_buf@ == Seq::<char>::empty(),
            ctx.scroll == (Vec2 { x: 0, y: 0 }),
            ctx.frame == 0,
            ctx.last_id == 0,
            ctx.last_bounds == (Rect { x: 0, y: 0, w: 0, h: 0 }),
            ctx.last_depth == 0,
            ctx.mouse == (Vec2 { x: 0, y: 0 }),
            ctx.last_mouse == (Vec2 { x: 0, y: 0 }),
            ctx.delta == (Vec2 { x: 0, y: 0 }),
            ctx.scroll_delta == (Vec2 { x: 0, y: 0 }),
            ctx.mouse_down == 0,
            ctx.mouse_pressed == 0,
            ctx.key_down == 0,
            ctx.key_pressed == 0,
            ctx.input@ == Seq::<char>::empty(),
            ctx.clipboard@ == Seq::<char>::empty(),
            ctx.hover_root is None,
            ctx.next_root is None,
            ctx.scroll_target is None,
            forall|i: int| 0 <= i < POOL ==> ctx.containers@[i] == Container::spec_default(),
            forall|i: int| 0 <= i < POOL ==> ctx.container_pool@[i] == PoolEntry::vacant(),
            forall|i: int| 0 <= i < TREE ==> ctx.tree_pool@[i] == PoolEntry::vacant(),
            ctx.id_stack@.len() == 0,
            ctx.layout_stack@.len() == 0,
            ctx.container_stack@.len() == 0,
            ctx.clip_stack@.len() == 0,
            ctx.roots@.len() == 0,
    {
        let mut containers: Vec<Container> = Vec::new();
        let mut container_pool: Vec<PoolEntry> = Vec::new();
        let mut tree_pool: Vec<PoolEntry> = Vec::new();
        let mut i: usize = 0;
        while i < POOL
            invariant
                i <= POOL,
                POOL == TREE,
                containers@.len() == i,
                container_pool@.len() == i,
                tree_pool@.len() == i,
                forall|j: int| 0 <= j < i ==> containers@[j] == Container::spec_default(),
                forall|j: int| 0 <= j < i ==> container_pool@[j] == PoolEntry::vacant(),
                forall|j: int| 0 <= j < i ==> tree_pool@[j] == PoolEntry::vacant(),
            decreases POOL - i,
        {
            containers.push(Container::default());
            container_pool.push(PoolEntry { id: 0, frame: 0 });
            tree_pool.push(PoolEntry { id: 0, frame: 0 });
            i = i + 1;
        }
        Context {
            style: Style::default(),
            draws: DrawList::default(),
            hover: 0,
            focus: 0,
            focus_updated: false,
            text_focus: 0,
            text_scroll: 0,
            cursor: 0,
            selection: 0,
            number_edit: 0,
            number_buf: String::new(),
            scroll: Vec2::new(0, 0),
            frame: 0,
            last_id: 0,
            last_bounds: Rect::new(0, 0, 0, 0),
            last_depth: 0,
            mouse: Vec2::new(0, 0),
            last_mouse: Vec2::new(0, 0),
            delta: Vec2::new(0, 0),
            scroll_delta: Vec2::new(0, 0),
            mouse_down: 0,
            mouse_pressed: 0,
            key_down: 0,
            key_pressed: 0,
            input: String::new(),
            clipboard: String::new(),
            hover_root: None,
            next_root: None,
            scroll_target: None,
            containers,
            container_pool,
            tree_pool,
            id_stack: Vec::new(),
            layout_stack: Vec::new(),
            container_stack: Vec::new(),
            clip_stack: Vec::new(),
            roots: Vec::new(),
        }
    }

    /// Starts a frame: clears the commands and the roots, takes over the hover root found in
    /// the last frame, and measures how far the mouse moved.
    pub fn begin_frame(&mut self)
        requires
            old(self).wf(),
            old(self).frame < u32::MAX,
            fits(old(self).mouse.x - old(self).last_mouse.x),
            fits(old(self).mouse.y - old(self).last_mouse.y),
        ensures
            final(self).wf(),
            final(self).draws@ == Seq::<CommandView>::empty(),
            final(self).roots@ == Seq::<usize>::empty(),
            final(self).scroll_target is None,
            final(self).hover_root == old(self).next_root,
            final(self).next_root is None,
            final(self).delta == (Vec2 {
                x: (old(self).mouse.x - old(self).last_mouse.x) as i32,
                y: (old(self).mouse.y - old(self).last_mouse.y) as i32,
            }),
            final(self).frame == old(self).frame + 1,
            *final(self) == (Context {
                draws: final(self).draws,
                roots: final(self).roots,
                scroll_target: final(self).scroll_target,
                hover_root: final(self).hover_root,
                next_root: final(self).next_root,
                delta: final(self).delta,
                frame: final(self).frame,
                ..*old(self)
            }),
    {
        self.draws.clear();
        self.roots.clear();
        self.scroll_target = None;
        self.hover_root = self.next_root;
        self.next_root = None;
        self.delta = Vec2::new(self.mouse.x - self.last_mouse.x, self.mouse.y - self.last_mouse.y);
        self.frame = self.frame + 1;
    }

    /// Ends a frame: scrolls the container under the mouse, drops the focus that no control
    /// claimed, and clears the input of the frame.
    pub fn end_frame(&mut self)
        requires
            old(self).wf(),
            old(self).container_stack@.len() == 0,
            old(self).clip_stack@.len() == 0,
            old(self).id_stack@.len() == 0,
            old(self).layout_stack@.len() == 0,
            old(self).scroll_target matches Some(t) ==> fits(
                old(self).containers@[t as int].scroll.x + old(self).scroll_delta.x,
            ) && fits(old(self).containers@[t as int].scroll.y + old(self).scroll_delta.y),
        ensures
            final(self).wf(),
            old(self).scroll_target matches Some(t) ==> final(self).containers@ == old(
                self,
            ).containers@.update(
                t as int,
                Container {
                    scroll: Vec2 {
                        x: (old(self).containers@[t as int].scroll.x + old(self).scroll_delta.x) as i32,
                        y: (old(self).containers@[t as int].scroll.y + old(self).scroll_delta.y) as i32,
                    },
                    ..old(self).containers@[t as int]
                },
            ),
            old(self).scroll_target is None ==> final(self).containers@ == old(self).containers@,
            final(self).focus == (if old(self).focus_updated {
                old(self).focus
            } else {
                0
            }),
            !final(self).focus_updated,
            final(self).key_pressed == 0,
            final(self).input@ == Seq::<char>::empty(),
            final(self).mouse_pressed == 0,
            final(self).scroll_delta == (Vec2 { x: 0, y: 0 }),
            final(self).last_mouse == old(self).mouse,
            *final(self) == (Context {
                containers: final(self).containers,
                focus: final(self).focus,
                focus_updated: final(self).focus_updated,
                key_pressed: final(self).key_pressed,
                input: final(self).input,
                mouse_pressed: final(self).mouse_pressed,
                scroll_delta: final(self).scroll_delta,
                last_mouse: final(self).last_mouse,
                ..*old(self)
            }),
    {
        if let Some(target) = self.scroll_target {
            let mut c = self.containers[target];
            c.scroll.x = c.scroll.x + self.scroll_delta.x;
            c.scroll.y = c.scroll.y + self.scroll_delta.y;
            self.containers.set(target, c);
        }
        if !self.focus_updated {
            self.focus = 0;
        }
        self.focus_updated = false;
        self.key_pressed = 0;
        self.input = String::new();
        self.mouse_pressed = 0;
        self.scroll_delta = Vec2::new(0, 0);
        self.last_mouse = self.mouse;
    }
}

impl Context {
    /// Hashes `data` in the current id scope; the result also becomes `last_id`.
    pub fn id(&mut self, data: &[u8]) -> (r: Id)
        ensures
            r == hash(old(self).id_seed(), data@),
            *final(self) == (Context { last_id: r, ..*old(self) }),
    {
        let base = if self.id_stack.len() == 0 {
            HASH_INITIAL
        } else {
            self.id_stack[self.id_stack.len() - 1]
        };
        let mut acc = base;
        let mut i: usize = 0;
        while i < data.len()
            invariant
                i <= data@.len(),
                acc == hash(base, data@.take(i as int)),
            decreases data@.len() - i,
        {
            assert(data@.take(i + 1).drop_last() =~= data@.take(i as int));
            acc = (acc ^ (data[i] as u32)).wrapping_mul(HASH_PRIME);
            i = i + 1;
        }
        assert(data@.take(data@.len() as int) =~= data@);
        self.last_id = acc;
        acc
    }

    /// Hashes the bytes of `s` in the current id scope.
    pub fn id_str(&mut self, s: &str) -> (r: Id)
        ensures
            r == hash(old(self).id_seed(), s.spec_bytes()),
            *final(self) == (Context { last_id: r, ..*old(self) }),
    {
        self.id(s.as_bytes())
    }

    /// Opens an id scope named by `data` inside the current one.
    pub fn push_id(&mut self, data: &[u8])
        requires
            old(self).wf(),
        ensures
            final(self).wf(),
            *final(self) == (Context {
                last_id: hash(old(self).id_seed(), data@),
                id_stack: final(self).id_stack,
                ..*old(self)
            }),
            final(self).id_stack@ == old(self).id_stack@.push(hash(old(self).id_seed(), data@)),
    {
        let id = self.id(data);
        self.id_stack.push(id);
    }

    /// Closes the innermost id scope.
    pub fn pop_id(&mut self)
        requires
            old(self).wf(),
        ensures
            final(self).wf(),
            *final(self) == (Context { id_stack: final(self).id_stack, ..*old(self) }),
            final(self).id_stack@ == (if old(self).id_stack@.len() == 0 {
                old(self).id_stack@
            } else {
                old(self).id_stack@.drop_last()
            }),
    {
        self.id_stack.pop();
    }

    /// The current clip rectangle.
    pub fn clip(&self) -> (r: Rect)
        ensures
            r == self.spec_clip(),
    {
        if self.clip_stack.len() == 0 {
            Rect::unbounded()
        } else {
            self.clip_stack[self.clip_stack.len() - 1]
        }
    }

    /// Clips to `bounds` within the current clip rectangle.
    pub fn push_clip(&mut self, bounds: Rect)
        requires
            old(self).wf(),
            bounds.can_intersect(old(self).spec_clip()),
        ensures
            final(self).wf(),
            final(self).clip_stack@ == old(self).clip_stack@.push(
                bounds.intersection(old(self).spec_clip()),
            ),
            final(self).spec_clip() == bounds.intersection(old(self).spec_clip()),
            *final(self) == (Context { clip_stack: final(self).clip_stack, ..*old(self) }),
    {
        let last = self.clip();
        self.clip_stack.push(bounds.intersect(last));
    }

    /// Returns to the clip rectangle before the last `push_clip`.
    pub fn pop_clip(&mut self)
        requires
            old(self).wf(),
        ensures
            final(self).wf(),
            final(self).clip_stack@ == (if old(self).clip_stack@.len() == 0 {
                old(self).clip_stack@
            } else {
                old(self).clip_stack@.drop_last()
            }),
            *final(self) == (Context { clip_stack: final(self).clip_stack, ..*old(self) }),
    {
        self.clip_stack.pop();
    }

    /// `check_clip(bounds)` computes without overflow.
    pub open spec fn can_check_clip(&self, bounds: Rect) -> bool {
        bounds.edges_fit() && self.spec_clip().edges_fit()
    }

    /// How `bounds` relates to the current clip rectangle.
    pub open spec fn spec_check_clip(&self, bounds: Rect) -> Clip {
        let c = self.spec_clip();
        if bounds.x > c.right() || bounds.right() < c.x || bounds.y > c.bottom() || bounds.bottom()
            < c.y {
            Clip::All
        } else if bounds.x >= c.x && bounds.right() <= c.right() && bounds.y >= c.y
            && bounds.bottom() <= c.bottom() {
            Clip::Unclipped
        } else {
            Clip::Partial
        }
    }

    /// How `check_clip` classifies a rectangle, seen as the closed region of points from its
    /// corner to its far corner: it is clipped away entirely (`All`) exactly when it shares no
    /// point with the clip rectangle, shown unclipped exactly when every point of it lies in the
    /// clip rectangle, and partly clipped otherwise.
    pub proof fn law_check_clip_by_points(&self, bounds: Rect)
        requires
            bounds.w >= 0,
            bounds.h >= 0,
            self.spec_clip().w >= 0,
            self.spec_clip().h >= 0,
        ensures
            (self.spec_check_clip(bounds) == Clip::All) <==> !(exists|px: int, py: int|
                #[trigger] closed_holds(bounds, px, py) && #[trigger] closed_holds(
                    self.spec_clip(),
                    px,
                    py,
                )),
            (self.spec_check_clip(bounds) == Clip::Unclipped) <==> (forall|px: int, py: int|
                #[trigger] closed_holds(bounds, px, py) ==> closed_holds(self.spec_clip(), px, py)),
    {
        let c = self.spec_clip();
        let px = if bounds.x >= c.x { bounds.x as int } else { c.x as int };
        let py = if bounds.y >= c.y { bounds.y as int } else { c.y as int };
        if self.spec_check_clip(bounds) != Clip::All {
            assert(closed_holds(bounds, px, py) && closed_holds(c, px, py));
        }
        if forall|qx: int, qy: int| #[trigger]
            closed_holds(bounds, qx, qy) ==> closed_holds(c, qx, qy) {
            assert(closed_holds(bounds, bounds.x as int, bounds.y as int));
            assert(closed_holds(bounds, bounds.x + bounds.w, bounds.y + bounds.h));
        }
    }

    /// Whether `bounds` lies wholly outside (`All`), wholly inside (`Unclipped`) or across the
    /// current clip rectangle.
    pub fn check_clip(&self, bounds: Rect) -> (r: Clip)
        requires
            self.can_check_clip(bounds),
        ensures
            r == self.spec_check_clip(bounds),
    {
        let clip = self.clip();
        if bounds.x > clip.x + clip.w || bounds.x + bounds.w < clip.x || bounds.y > clip.y + clip.h
            || bounds.y + bounds.h < clip.y {
            return Clip::All;
        }
        if bounds.x >= clip.x && bounds.x + bounds.w <= clip.x + clip.w && bounds.y >= clip.y
            && bounds.y + bounds.h <= clip.y + clip.h {
            return Clip::Unclipped;
        }
        Clip::Partial
    }

    /// Gives the focus to `id`; the focus 0 also leaves text editing.
    pub fn set_focus(&mut self, id: Id)
        ensures
            *final(self) == (Context {
                focus: id,
                focus_updated: true,
                text_focus: if id == 0 {
                    0
                } else {
                    old(self).text_focus
                },
                text_scroll: if id == 0 {
                    0
                } else {
                    old(self).text_scroll
                },
                ..*old(self)
            }),
    {
        self.focus = id;
        self.focus_updated = true;
        if id == 0 {
            self.text_focus = 0;
            self.text_scroll = 0;
        }
    }

    /// The layout of the innermost container.
    pub fn layout(&mut self) -> (r: &mut Layout)
        requires
            old(self).wf(),
            old(self).layout_stack@.len() > 0,
        ensures
            *r == old(self).top_layout(),
            final(self).layout_stack@ == old(self).layout_stack@.update(
                old(self).layout_stack@.len() - 1,
                *final(r),
            ),
            *final(self) == (Context { layout_stack: final(self).layout_stack, ..*old(self) }),
    {
        let n = self.layout_stack.len();
        &mut self.layout_stack[n - 1]
    }

    /// Starts laying out `body`, scrolled by `scroll`.
    pub fn push_layout(&mut self, body: Rect, scroll: Vec2)
        requires
            old(self).wf(),
            fits(body.x - scroll.x),
            fits(body.y - scroll.y),
        ensures
            final(self).wf(),
            final(self).layout_stack@.len() == old(self).layout_stack@.len() + 1,
            final(self).layout_stack@.drop_last() == old(self).layout_stack@,
            final(self).top_layout()@ == LayoutView::initial(body, scroll),
            *final(self) == (Context { layout_stack: final(self).layout_stack, ..*old(self) }),
    {
        self.layout_stack.push(Layout::new(body, scroll));
        assert(self.layout_stack@.drop_last() =~= old(self).layout_stack@);
    }

    /// Ends the innermost layout.
    pub fn pop_layout(&mut self)
        requires
            old(self).wf(),
        ensures
            final(self).wf(),
            final(self).layout_stack@ == (if old(self).layout_stack@.len() == 0 {
                old(self).layout_stack@
            } else {
                old(self).layout_stack@.drop_last()
            }),
            *final(self) == (Context { layout_stack: final(self).layout_stack, ..*old(self) }),
    {
        self.layout_stack.pop();
    }

    /// `next_bounds` can place a control.
    pub open spec fn can_next_bounds(&self) -> bool {
        &&& self.layout_stack@.len() > 0
        &&& self.top_layout()@.can_next(self.style.size, self.style.spacing as int)
    }

    /// The rectangle of the next control.
    pub open spec fn spec_next_bounds(&self) -> Rect {
        self.top_layout()@.next_rect(self.style.size, self.style.spacing as int)
    }

    /// Places the next control in the innermost layout and returns its rectangle.
    pub fn next_bounds(&mut self) -> (r: Rect)
        requires
            old(self).wf(),
            old(self).can_next_bounds(),
        ensures
            final(self).wf(),
            r == old(self).spec_next_bounds(),
            final(self).layout_stack@.len() == old(self).layout_stack@.len(),
            final(self).layout_stack@.drop_last() == old(self).layout_stack@.drop_last(),
            final(self).top_layout()@ == old(self).top_layout()@.after_next(
                old(self).style.size,
                old(self).style.spacing as int,
            ),
            *final(self) == (Context { layout_stack: final(self).layout_stack, ..*old(self) }),
    {
        let spacing = self.style.spacing;
        let size = self.style.size;
        let n = self.layout_stack.len();
        let r = self.layout_stack[n - 1].next(size, spacing);
        assert(self.layout_stack@.drop_last() =~= old(self).layout_stack@.drop_last());
        r
    }

    /// The innermost container.
    pub fn current_container(&self) -> (c: &Container)
        requires
            self.wf(),
            self.container_stack@.len() > 0,
        ensures
            *c == self.containers@[self.top_container()],
    {
        let idx = self.container_stack[self.container_stack.len() - 1];
        &self.containers[idx]
    }

    /// The innermost container, to change it.
    pub fn current_container_mut(&mut self) -> (c: &mut Container)
        requires
            old(self).wf(),
            old(self).container_stack@.len() > 0,
        ensures
            *c == old(self).containers@[old(self).top_container()],
            final(self).containers@ == old(self).containers@.update(
                old(self).top_container(),
                *final(c),
            ),
            *final(self) == (Context { containers: final(self).containers, ..*old(self) }),
    {
        let idx = self.container_stack[self.container_stack.len() - 1];
        &mut self.containers[idx]
    }

    /// All container slots.
    pub fn context_containers(&mut self) -> (c: &mut Vec<Container>)
        ensures
            *c == old(self).containers,
            *final(self) == (Context { containers: *final(c), ..*old(self) }),
    {
        &mut self.containers
    }
}

/// The hover root `root` is reached from the top of the container stack `stack` before any
/// other of the root containers `roots`.
#[verifier::opaque]
pub open spec fn hover_reached(stack: Seq<usize>, root: Option<usize>, roots: Seq<usize>) -> bool {
    exists|k: int|
        0 <= k < stack.len() && root == Some(stack[k]) && forall|j: int|
            k < j < stack.len() ==> !roots.contains(#[trigger] stack[j])
}

/// Just after a root container is pushed, the mouse may hover its controls exactly when it is
/// the hover root.
pub proof fn lemma_hover_top(stack: Seq<usize>, root: Option<usize>, roots: Seq<usize>, idx: usize)
    ensures
        hover_reached(stack.push(idx), root, roots.push(idx)) == (root == Some(idx)),
{
    reveal(hover_reached);
    let s = stack.push(idx);
    let r = roots.push(idx);
    if root == Some(idx) {
        assert(s[stack.len() as int] == idx);
    } else if hover_reached(s, root, r) {
        let k = choose|k: int|
            0 <= k < s.len() && root == Some(s[k]) && forall|j: int|
                k < j < s.len() ==> !r.contains(#[trigger] s[j]);
        assert(k < stack.len());
        assert(r[roots.len() as int] == idx);
        assert(r.contains(s[stack.len() as int]));
    }
}

/// The first slot held by `id` is found by a left-to-right search.
pub proof fn lemma_first_slot_unique(pool: Seq<PoolEntry>, id: Id, i: int, k: int)
    requires
        is_first_slot(pool, id, i),
        is_first_slot(pool, id, k),
    ensures
        i == k,
{
    if i < k {
        assert(pool[i].id != id);
    } else if k < i {
        assert(pool[k].id != id);
    }
}

impl Context {
    fn find_slot(pool: &Vec<PoolEntry>, id: Id) -> (r: Option<usize>)
        ensures
            r matches Some(i) ==> is_first_slot(pool@, id, i as int),
            r is None ==> !pool_has(pool@, id),
    {
        let mut i: usize = 0;
        while i < pool.len()
            invariant
                i <= pool@.len(),
                forall|j: int| 0 <= j < i ==> pool@[j].id != id,
            decreases pool@.len() - i,
        {
            if pool[i].id == id {
                return Some(i);
            }
            i = i + 1;
        }
        None
    }

    fn oldest_slot(pool: &Vec<PoolEntry>) -> (slot: usize)
        requires
            pool@.len() > 0,
        ensures
            is_oldest_slot(pool@, slot as int),
    {
        let mut best: usize = 0;
        let mut i: usize = 1;
        while i < pool.len()
            invariant
                1 <= i <= pool@.len(),
                best < i,
                forall|j: int| 0 <= j < i ==> pool@[best as int].frame <= #[trigger] pool@[j].frame,
                forall|j: int| 0 <= j < best ==> pool@[best as int].frame < #[trigger] pool@[j].frame,
            decreases pool@.len() - i,
        {
            if pool[i].frame < pool[best].frame {
                best = i;
            }
            i = i + 1;
        }
        best
    }

    /// The container that a slot holds once `fetch_container` gives it to a new id: open, and
    /// in front of all others.
    pub open spec fn fresh_container(depth: int) -> Container {
        Container { open: true, depth: depth as i32, ..Container::spec_default() }
    }

    /// The slot of the container of `id`. A closed request for an id without a slot gives
    /// `None`; otherwise an id without a slot takes over the slot used least recently, with a
    /// fresh open container in front of all others. The slot's frame is renewed unless the
    /// request is closed and the container is closed.
    pub fn fetch_container(&mut self, id: Id, closed: bool) -> (r: Option<usize>)
        requires
            old(self).wf(),
            !pool_has(old(self).container_pool@, id) && !closed ==> old(self).last_depth < i32::MAX,
        ensures
            final(self).wf(),
            pool_has(old(self).container_pool@, id) ==> (r matches Some(i) && is_first_slot(
                old(self).container_pool@,
                id,
                i as int,
            ) && final(self).container_pool@ == (if old(self).containers@[i as int].open
                || !closed {
                old(self).container_pool@.update(i as int, PoolEntry { id: id, frame: old(self).frame })
            } else {
                old(self).container_pool@
            }) && *final(self) == (Context { container_pool: final(self).container_pool, ..*old(self) })),
            !pool_has(old(self).container_pool@, id) && closed ==> r is None && *final(self)
                == *old(self),
            !pool_has(old(self).container_pool@, id) && !closed ==> (r matches Some(s) && is_oldest_slot(
                old(self).container_pool@,
                s as int,
            ) && final(self).container_pool@ == old(self).container_pool@.update(
                s as int,
                PoolEntry { id: id, frame: old(self).frame },
            ) && final(self).containers@ == old(self).containers@.update(
                s as int,
                Context::fresh_container(old(self).last_depth + 1),
            ) && final(self).last_depth == old(self).last_depth + 1 && *final(self) == (Context {
                container_pool: final(self).container_pool,
                containers: final(self).containers,
                last_depth: final(self).last_depth,
                ..*old(self)
            })),
    {
        let found = Context::find_slot(&self.container_pool, id);
        if let Some(idx) = found {
            if self.containers[idx].open || !closed {
                let frame = self.frame;
                self.container_pool.set(idx, PoolEntry { id, frame });
            }
            return Some(idx);
        }
        if closed {
            return None;
        }
        let slot = Context::oldest_slot(&self.container_pool);
        let frame = self.frame;
        self.container_pool.set(slot, PoolEntry { id, frame });
        let mut c = Container::default();
        c.open = true;
        self.containers.set(slot, c);
        self.bring_front(slot);
        Some(slot)
    }

    /// Puts the container in slot `idx` in front of all others.
    pub fn bring_front(&mut self, idx: usize)
        requires
            old(self).wf(),
            idx < POOL,
            old(self).last_depth < i32::MAX,
        ensures
            final(self).wf(),
            final(self).last_depth == old(self).last_depth + 1,
            final(self).containers@ == old(self).containers@.update(
                idx as int,
                Container { depth: final(self).last_depth, ..old(self).containers@[idx as int] },
            ),
            *final(self) == (Context {
                last_depth: final(self).last_depth,
                containers: final(self).containers,
                ..*old(self)
            }),
    {
        self.last_depth = self.last_depth + 1;
        let mut c = self.containers[idx];
        c.depth = self.last_depth;
        self.containers.set(idx, c);
    }

    /// Some tree-node slot is held by `id`: the node is expanded.
    pub fn fetch_tree(&mut self, id: Id) -> (r: bool)
        ensures
            r == pool_has(old(self).tree_pool@, id),
            *final(self) == *old(self),
    {
        let found = Context::find_slot(&self.tree_pool, id);
        found.is_some()
    }

    /// Gives `id` the tree-node slot used least recently.
    pub fn activate_tree(&mut self, id: Id)
        requires
            old(self).wf(),
        ensures
            final(self).wf(),
            old(self).trees_unique() && !pool_has(old(self).tree_pool@, id) ==> final(self).trees_unique(),
            exists|s: int|
                is_oldest_slot(old(self).tree_pool@, s) && final(self).tree_pool@ == old(
                    self,
                ).tree_pool@.update(s, PoolEntry { id: id, frame: old(self).frame }),
            *final(self) == (Context { tree_pool: final(self).tree_pool, ..*old(self) }),
    {
        let slot = Context::oldest_slot(&self.tree_pool);
        let frame = self.frame;
        proof {
            if old(self).trees_unique() && !pool_has(old(self).tree_pool@, id) {
                lemma_unique_update(old(self).tree_pool@, slot as int, PoolEntry { id, frame });
            }
        }
        self.tree_pool.set(slot, PoolEntry { id, frame });
    }

    /// Frees the first tree-node slot held by `id`.
    pub fn deactivate_tree(&mut self, id: Id)
        requires
            old(self).wf(),
        ensures
            final(self).wf(),
            old(self).trees_unique() ==> final(self).trees_unique(),
            !pool_has(old(self).tree_pool@, id) ==> final(self).tree_pool@ == old(self).tree_pool@,
            pool_has(old(self).tree_pool@, id) ==> exists|i: int|
                is_first_slot(old(self).tree_pool@, id, i) && final(self).tree_pool@ == old(
                    self,
                ).tree_pool@.update(i, PoolEntry::vacant()),
            *final(self) == (Context { tree_pool: final(self).tree_pool, ..*old(self) }),
    {
        if let Some(slot) = Context::find_slot(&self.tree_pool, id) {
            proof {
                if old(self).trees_unique() {
                    lemma_unique_update(old(self).tree_pool@, slot as int, PoolEntry::vacant());
                }
            }
            self.tree_pool.set(slot, PoolEntry { id: 0, frame: 0 });
        }
    }

    /// Renews the frame of the first tree-node slot held by `id`.
    pub fn update_tree(&mut self, id: Id)
        requires
            old(self).wf(),
        ensures
            final(self).wf(),
            old(self).trees_unique() ==> final(self).trees_unique(),
            !pool_has(old(self).tree_pool@, id) ==> final(self).tree_pool@ == old(self).tree_pool@,
            pool_has(old(self).tree_pool@, id) ==> exists|i: int|
                is_first_slot(old(self).tree_pool@, id, i) && final(self).tree_pool@ == old(
                    self,
                ).tree_pool@.update(i, PoolEntry { id: id, frame: old(self).frame }),
            *final(self) == (Context { tree_pool: final(self).tree_pool, ..*old(self) }),
    {
        if let Some(slot) = Context::find_slot(&self.tree_pool, id) {
            let frame = self.frame;
            proof {
                if old(self).trees_unique() {
                    lemma_unique_update(old(self).tree_pool@, slot as int, PoolEntry { id, frame });
                }
            }
            self.tree_pool.set(slot, PoolEntry { id, frame });
        }
    }

    /// The container in slot `idx` becomes the next hover root: the mouse is over it and it
    /// lies in front of the hover root found so far.
    pub open spec fn becomes_root(&self, idx: int) -> bool {
        &&& self.containers@[idx].bounds.holds(self.mouse)
        &&& match self.next_root {
            None => true,
            Some(r) => self.containers@[idx].depth > self.containers@[r as int].depth,
        }
    }

    /// Enters the root container in slot `idx`: resets the renderer's clip and records it as
    /// a root, and as the hover root when the mouse is over it.
    pub fn push_container(&mut self, idx: usize)
        requires
            old(self).wf(),
            idx < POOL,
            old(self).containers@[idx as int].bounds.edges_fit(),
        ensures
            final(self).wf(),
            final(self).draws@ == old(self).draws@.push(CommandView::Clip(Rect::spec_unbounded())),
            final(self).container_stack@ == old(self).container_stack@.push(idx),
            final(self).roots@ == old(self).roots@.push(idx),
            final(self).next_root == (if old(self).becomes_root(idx as int) {
                Some(idx)
            } else {
                old(self).next_root
            }),
            *final(self) == (Context {
                draws: final(self).draws,
                container_stack: final(self).container_stack,
                roots: final(self).roots,
                next_root: final(self).next_root,
                ..*old(self)
            }),
    {
        self.draws.clip(Rect::unbounded());
        self.container_stack.push(idx);
        self.roots.push(idx);
        let mouse = self.mouse;
        let depth = self.containers[idx].depth;
        if self.containers[idx].bounds.contains(mouse) {
            let deeper = match self.next_root {
                None => true,
                Some(r) => depth > self.containers[r].depth,
            };
            if deeper {
                self.next_root = Some(idx);
            }
        }
    }

    /// Enters the container in slot `idx` without making it a root.
    pub fn push_container_raw(&mut self, idx: usize)
        requires
            old(self).wf(),
            idx < POOL,
        ensures
            final(self).wf(),
            final(self).container_stack@ == old(self).container_stack@.push(idx),
            *final(self) == (Context { container_stack: final(self).container_stack, ..*old(self) }),
    {
        self.container_stack.push(idx);
    }

    /// `pop_container` can leave the innermost container.
    pub open spec fn can_pop_container(&self) -> bool {
        &&& self.container_stack@.len() > 0
        &&& self.layout_stack@.len() > 0
        &&& fits(self.top_layout().maximum.x - self.top_layout().body.x)
        &&& fits(self.top_layout().maximum.y - self.top_layout().body.y)
    }

    /// Leaves the innermost container: records how much its layout placed, and drops its
    /// layout and id scope. The clip rectangle is left to the caller that pushed it.
    pub fn pop_container(&mut self)
        requires
            old(self).wf(),
            old(self).can_pop_container(),
        ensures
            final(self).wf(),
            final(self).container_stack@ == old(self).container_stack@.drop_last(),
            final(self).layout_stack@ == old(self).layout_stack@.drop_last(),
            final(self).containers@ == old(self).containers@.update(
                old(self).top_container(),
                Container {
                    content: old(self).top_layout()@.content(),
                    ..old(self).containers@[old(self).top_container()]
                },
            ),
            final(self).id_stack@ == (if old(self).id_stack@.len() == 0 {
                old(self).id_stack@
            } else {
                old(self).id_stack@.drop_last()
            }),
            *final(self) == (Context {
                container_stack: final(self).container_stack,
                layout_stack: final(self).layout_stack,
                containers: final(self).containers,
                id_stack: final(self).id_stack,
                ..*old(self)
            }),
    {
        let idx = self.container_stack.pop().unwrap();
        let layout = self.layout_stack.pop().unwrap();
        let mut c = self.containers[idx];
        c.content = layout.content_size();
        self.containers.set(idx, c);
        self.id_stack.pop();
    }

    /// The hover root lies in the container stack with no other root container above it.
    pub open spec fn spec_hovering(&self) -> bool {
        hover_reached(self.container_stack@, self.hover_root, self.roots@)
    }

    fn is_root(&self, idx: usize) -> (b: bool)
        ensures
            b == self.roots@.contains(idx),
    {
        let mut i: usize = 0;
        while i < self.roots.len()
            invariant
                i <= self.roots@.len(),
                forall|j: int| 0 <= j < i ==> self.roots@[j] != idx,
            decreases self.roots@.len() - i,
        {
            if self.roots[i] == idx {
                return true;
            }
            i = i + 1;
        }
        false
    }

    /// The mouse may hover the controls of the innermost container: its hover root is reached
    /// from the top of the container stack before any other root container, so the controls of
    /// panels inside the hovered window count too.
    pub fn hovering(&self) -> (r: bool)
        requires
            self.wf(),
        ensures
            r == self.spec_hovering(),
    {
        reveal(hover_reached);
        let mut index = self.container_stack.len();
        while index > 0
            invariant
                index <= self.container_stack@.len(),
                self.wf(),
                forall|j: int|
                    #![trigger self.container_stack@[j]]
                    index <= j < self.container_stack@.len() ==> self.hover_root != Some(
                        self.container_stack@[j],
                    ) && !self.roots@.contains(self.container_stack@[j]),
            decreases index,
        {
            index = index - 1;
            let idx = self.container_stack[index];
            proof {
                reveal(hover_reached);
            }
            if self.hover_root == Some(idx) {
                return true;
            }
            if self.is_root(idx) {
                assert forall|k: int|
                    0 <= k < self.container_stack@.len() && self.hover_root == Some(
                        self.container_stack@[k],
                    ) implies exists|j: int|
                    k < j < self.container_stack@.len()
                        && self.roots@.contains(#[trigger] self.container_stack@[j]) by {
                    assert(k < index);
                    assert(self.roots@.contains(self.container_stack@[index as int]));
                }
                return false;
            }
        }
        false
    }
}

} // verus!
