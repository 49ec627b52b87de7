//! The application core: the document, the tools, and the history.
//!
//! One owner holds the page list, the per-tool state, the drawing settings
//! and the undo/redo stacks; the host's event loop drives it with gesture
//! edges, pointer samples and button actions.  History is deliberately
//! naive: a full deep snapshot of the page list after every completed
//! gesture, undone and redone wholesale.

use crate::canvas::{
    clone_pages, images_view, lines_view, pages_view, BufferedImage, Page, PageView, Rgba,
};
use crate::clear::Clear;
use crate::codec::{deserialize_pages, p_doc, ser_doc, serialize_pages, DataError};
use crate::drag::Drag;
use crate::eraser::Eraser;
use crate::geometry::Point;
use crate::line_eraser::LineEraser;
use crate::line_tool::LineTool;
use crate::pencil::Pencil;
use crate::rectangle_selection::RectangleSelection;
use vstd::prelude::*;

verus! {

/// The tool the pointer currently drives.
#[derive(Clone, Copy, PartialEq, Eq, Structural, Debug)]
pub enum CurrentDrawTool {
    Pencil,
    Eraser,
    LineEraser,
    LineTool,
    Drag,
    RectangleSelection,
    Clear,
}

/// The drawing settings the host's widgets write: pen color, pen size, pen
/// state, the pointer's last known position, and the selected tool.
pub struct DrawingInformation {
    pub rgba: Rgba,
    pub pen_is_active: bool,
    pub pen_size: i64,
    pub cursor_position: Option<Point>,
    pub current_draw_tool: CurrentDrawTool,
}

impl DrawingInformation {
    /// Startup defaults: black opaque pen of size 25, pen up, pointer at
    /// the origin, pencil selected.
    pub fn new() -> (t: DrawingInformation)
        ensures
            t.rgba == (Rgba { red: 0, green: 0, blue: 0, alpha: 1 }),
            t.pen_is_active == false,
            t.pen_size == 25,
            t.cursor_position == Some(Point { x: 0, y: 0 }),
            t.current_draw_tool == CurrentDrawTool::Pencil,
    {
        DrawingInformation {
            rgba: Rgba { red: 0, green: 0, blue: 0, alpha: 1 },
            pen_is_active: false,
            pen_size: 25,
            cursor_position: Some(Point::new(0, 0)),
            current_draw_tool: CurrentDrawTool::Pencil,
        }
    }
}

/// The view of a history stack: each snapshot as a page-view sequence.
pub open spec fn history_view(h: Seq<Vec<Page>>) -> Seq<Seq<PageView>> {
    h.map_values(|snapshot: Vec<Page>| pages_view(snapshot@))
}

/// The undo/redo mechanism, seen mathematically: the live document and the
/// two snapshot stacks.
#[verifier::ext_equal]
pub ghost struct HistModel {
    pub pages: Seq<PageView>,
    pub history: Seq<Seq<PageView>>,
    pub undone: Seq<Seq<PageView>>,
}

/// What one undo does to the model: with more than the starting snapshot
/// stacked, the top snapshot moves to the redo stack and the document
/// becomes the new top; a no-op otherwise.
pub open spec fn undo_step(s: HistModel) -> HistModel {
    if s.history.len() <= 1 {
        s
    } else {
        HistModel {
            pages: s.history[s.history.len() - 2],
            history: s.history.drop_last(),
            undone: s.undone.push(s.history.last()),
        }
    }
}

/// What one redo does to the model: with something undone, the top redo
/// snapshot moves back onto the undo stack and the document becomes it; a
/// no-op otherwise.
pub open spec fn redo_step(s: HistModel) -> HistModel {
    if s.undone.len() == 0 {
        s
    } else {
        HistModel {
            pages: s.undone.last(),
            history: s.history.push(s.undone.last()),
            undone: s.undone.drop_last(),
        }
    }
}

/// The application core's state.
pub struct Application {
    pub current_page: usize,
    pub pages: Vec<Page>,
    pub pages_history: Vec<Vec<Page>>,
    pub undone_pages_history: Vec<Vec<Page>>,
    pub drawing_information: DrawingInformation,
    pub image_buffer: Vec<BufferedImage>,
    pub pencil: Pencil,
    pub eraser: Eraser,
    pub line_eraser: LineEraser,
    pub line_tool: LineTool,
    pub drag: Drag,
    pub rectangle_selection: RectangleSelection,
    pub clear: Clear,
}

impl Application {
    /// The history model this application currently embodies.
    pub open spec fn hist_model(self) -> HistModel {
        HistModel {
            pages: pages_view(self.pages@),
            history: history_view(self.pages_history@),
            undone: history_view(self.undone_pages_history@),
        }
    }

    /// Structural well-formedness: the page list is never empty, the
    /// current-page index stays in range, the undo stack always holds at
    /// least one snapshot, and every snapshot is itself a non-empty page
    /// list (so restoring one keeps the page list non-empty).
    pub open spec fn wf(self) -> bool {
        &&& self.pages@.len() >= 1
        &&& self.current_page < self.pages@.len()
        &&& self.pages_history@.len() >= 1
        &&& forall|i: int|
            0 <= i < self.pages_history@.len() ==> (#[trigger] self.pages_history@[i])@.len() >= 1
        &&& forall|i: int|
            0 <= i < self.undone_pages_history@.len() ==> (
            #[trigger] self.undone_pages_history@[i])@.len() >= 1
    }

    /// A fresh application: one empty page, a history holding that one
    /// starting state, nothing to redo, default drawing settings.
    pub fn new() -> (t: Application)
        ensures
            t.wf(),
            t.current_page == 0,
            t.pages@.len() == 1,
            pages_view(t.pages@)[0].lines == Seq::<Seq<crate::canvas::Drawpoint>>::empty(),
            pages_view(t.pages@)[0].images == Seq::<crate::canvas::ImageView>::empty(),
            history_view(t.pages_history@) == seq![pages_view(t.pages@)],
            t.undone_pages_history@.len() == 0,
            t.image_buffer@.len() == 0,
            t.drawing_information.pen_is_active == false,
            t.drawing_information.current_draw_tool == CurrentDrawTool::Pencil,
            t.drag.previous_pen_is_active == false,
            t.rectangle_selection.previous_pen_is_active == false,
    {
        let mut pages: Vec<Page> = Vec::new();
        pages.push(Page::new());
        let snapshot = clone_pages(&pages);
        let mut pages_history: Vec<Vec<Page>> = Vec::new();
        pages_history.push(snapshot);
        let t = Application {
            current_page: 0,
            pages,
            pages_history,
            undone_pages_history: Vec::new(),
            drawing_information: DrawingInformation::new(),
            image_buffer: Vec::new(),
            pencil: Pencil::new(),
            eraser: Eraser::new(),
            line_eraser: LineEraser::new(),
            line_tool: LineTool::new(),
            drag: Drag::new(),
            rectangle_selection: RectangleSelection::new(),
            clear: Clear::new(),
        };
        proof {
            assert(history_view(t.pages_history@) =~~= seq![pages_view(t.pages@)]);
        }
        t
    }

    /// Pointer down: the pen becomes active and a fresh empty stroke opens
    /// on the current page, ready for the pencil or the line tool.
    pub fn begin_gesture(&mut self)
        requires
            old(self).wf(),
        ensures
            final(self).wf(),
            final(self).drawing_information.pen_is_active == true,
            final(self).drawing_information.rgba == old(self).drawing_information.rgba,
            final(self).drawing_information.pen_size == old(self).drawing_information.pen_size,
            final(self).drawing_information.current_draw_tool == old(self).drawing_information.current_draw_tool,
            final(self).current_page == old(self).current_page,
            pages_view(final(self).pages@) == pages_view(old(self).pages@).update(
                old(self).current_page as int,
                PageView {
                    lines: pages_view(old(self).pages@)[old(self).current_page as int].lines.push(
                        Seq::empty(),
                    ),
                    images: pages_view(old(self).pages@)[old(self).current_page as int].images,
                },
            ),
            final(self).pages_history == old(self).pages_history,
            final(self).undone_pages_history == old(self).undone_pages_history,
            final(self).image_buffer == old(self).image_buffer,
            final(self).pencil == old(self).pencil,
            final(self).drag == old(self).drag,
            final(self).rectangle_selection == old(self).rectangle_selection,
    {
        self.drawing_information.pen_is_active = true;
        let cp = self.current_page;
        let page = &mut self.pages[cp];
        page.lines.push(Vec::new());
        proof {
            assert(lines_view(self.pages@[cp as int].lines) =~~= lines_view(
                old(self).pages@[cp as int].lines,
            ).push(Seq::empty()));
            assert(pages_view(self.pages@) =~~= pages_view(old(self).pages@).update(
                cp as int,
                PageView {
                    lines: pages_view(old(self).pages@)[cp as int].lines.push(Seq::empty()),
                    images: pages_view(old(self).pages@)[cp as int].images,
                },
            ));
        }
    }

    /// Pointer up: the pen goes inactive, the completed state is pushed
    /// onto the undo stack as a deep snapshot, and — as after any new edit
    /// — the redo stack is cleared.
    pub fn end_gesture(&mut self)
        requires
            old(self).wf(),
        ensures
            final(self).wf(),
            final(self).drawing_information.pen_is_active == false,
            final(self).drawing_information.rgba == old(self).drawing_information.rgba,
            final(self).drawing_information.pen_size == old(self).drawing_information.pen_size,
            final(self).drawing_information.current_draw_tool == old(self).drawing_information.current_draw_tool,
            final(self).current_page == old(self).current_page,
            final(self).pages == old(self).pages,
            history_view(final(self).pages_history@) == history_view(
                old(self).pages_history@,
            ).push(pages_view(old(self).pages@)),
            final(self).undone_pages_history@.len() == 0,
            final(self).image_buffer == old(self).image_buffer,
            final(self).pencil == old(self).pencil,
            final(self).drag == old(self).drag,
            final(self).rectangle_selection == old(self).rectangle_selection,
    {
        self.drawing_information.pen_is_active = false;
        let ghost prev = self.pages_history@;
        let snapshot = clone_pages(&self.pages);
        self.pages_history.push(snapshot);
        self.undone_pages_history.clear();
        proof {
            assert(self.pages_history@ == prev.push(snapshot));
            assert(prev.map_values(|s: Vec<Page>| pages_view(s@)).len() == prev.len());
            assert(history_view(self.pages_history@) =~~= history_view(prev).push(
                pages_view(old(self).pages@),
            ));
        }
    }

    /// Undo: with more than the starting snapshot stacked, move the top
    /// snapshot to the redo stack, restore the document to the new top, and
    /// clamp the current-page index back into range.  A no-op otherwise.
    pub fn undo(&mut self)
        requires
            old(self).wf(),
        ensures
            final(self).wf(),
            final(self).hist_model() == undo_step(old(self).hist_model()),
            old(self).pages_history@.len() <= 1 ==> *final(self) == *old(self),
            old(self).pages_history@.len() > 1 ==> {
                &&& history_view(final(self).pages_history@) == history_view(
                    old(self).pages_history@,
                ).drop_last()
                &&& history_view(final(self).undone_pages_history@) == history_view(
                    old(self).undone_pages_history@,
                ).push(history_view(old(self).pages_history@).last())
                &&& pages_view(final(self).pages@) == history_view(old(self).pages_history@)[old(self).pages_history@.len() - 2]
                &&& final(self).current_page == (if old(self).current_page < final(self).pages@.len() {
                    old(self).current_page as int
                } else {
                    final(self).pages@.len() - 1
                })
                &&& final(self).image_buffer == old(self).image_buffer
                &&& final(self).drawing_information == old(self).drawing_information
            },
    {
        if self.pages_history.len() > 1 {
            let ghost prev_hist = self.pages_history@;
            let ghost prev_undone = self.undone_pages_history@;
            let popped = match self.pages_history.pop() {
                Some(p) => p,
                None => {
                    proof {
                        assert(false);
                    }
                    Vec::new()
                },
            };
            self.undone_pages_history.push(popped);
            let n = self.pages_history.len();
            let restored = clone_pages(&self.pages_history[n - 1]);
            self.pages = restored;
            if self.current_page > self.pages.len() - 1 {
                self.current_page = self.pages.len() - 1;
            }
            proof {
                assert(self.pages_history@ =~= prev_hist.drop_last());
                assert(history_view(self.pages_history@) =~~= history_view(
                    prev_hist,
                ).drop_last());
                assert(self.undone_pages_history@ == prev_undone.push(popped));
                assert(prev_undone.map_values(|s: Vec<Page>| pages_view(s@)).len()
                    == prev_undone.len());
                assert(history_view(self.undone_pages_history@) =~~= history_view(
                    prev_undone,
                ).push(history_view(prev_hist).last()));
                assert(pages_view(self.pages@) == history_view(prev_hist)[prev_hist.len() - 2]);
                assert(self.hist_model() =~~= undo_step(old(self).hist_model()));
            }
        } else {
            proof {
                assert(self.hist_model() =~~= undo_step(old(self).hist_model()));
            }
        }
    }

    /// Redo: with something undone, move the top redo snapshot back onto
    /// the undo stack, restore the document to it, and clamp the
    /// current-page index.  A no-op with an empty redo stack.
    pub fn redo(&mut self)
        requires
            old(self).wf(),
        ensures
            final(self).wf(),
            final(self).hist_model() == redo_step(old(self).hist_model()),
            old(self).undone_pages_history@.len() == 0 ==> *final(self) == *old(self),
            old(self).undone_pages_history@.len() > 0 ==> {
                &&& history_view(final(self).pages_history@) == history_view(
                    old(self).pages_history@,
                ).push(history_view(old(self).undone_pages_history@).last())
                &&& history_view(final(self).undone_pages_history@) == history_view(
                    old(self).undone_pages_history@,
                ).drop_last()
                &&& pages_view(final(self).pages@) == history_view(
                    old(self).undone_pages_history@,
                ).last()
                &&& final(self).current_page == (if old(self).current_page < final(self).pages@.len() {
                    old(self).current_page as int
                } else {
                    final(self).pages@.len() - 1
                })
                &&& final(self).image_buffer == old(self).image_buffer
                &&& final(self).drawing_information == old(self).drawing_information
            },
    {
        if self.undone_pages_history.len() > 0 {
            let ghost prev_hist = self.pages_history@;
            let ghost prev_undone = self.undone_pages_history@;
            let popped = match self.undone_pages_history.pop() {
                Some(p) => p,
                None => {
                    proof {
                        assert(false);
                    }
                    Vec::new()
                },
            };
            let restored = clone_pages(&popped);
            self.pages_history.push(popped);
            self.pages = restored;
            if self.current_page > self.pages.len() - 1 {
                self.current_page = self.pages.len() - 1;
            }
            proof {
                assert(self.undone_pages_history@ =~= prev_undone.drop_last());
                assert(history_view(self.undone_pages_history@) =~~= history_view(
                    prev_undone,
                ).drop_last());
                assert(self.pages_history@ == prev_hist.push(prev_undone.last()));
                assert(prev_hist.map_values(|s: Vec<Page>| pages_view(s@)).len()
                    == prev_hist.len());
                assert(history_view(self.pages_history@) =~~= history_view(prev_hist).push(
                    history_view(prev_undone).last(),
                ));
                assert(pages_view(self.pages@) == history_view(prev_undone).last());
                assert(self.hist_model() =~~= redo_step(old(self).hist_model()));
            }
        } else {
            proof {
                assert(self.hist_model() =~~= redo_step(old(self).hist_model()));
            }
        }
    }

    /// Append a fresh empty page at the end of the document.
    pub fn add_page(&mut self)
        requires
            old(self).wf(),
        ensures
            final(self).wf(),
            pages_view(final(self).pages@) == pages_view(old(self).pages@).push(
                PageView {
                    lines: Seq::empty(),
                    images: Seq::empty(),
                },
            ),
            final(self).current_page == old(self).current_page,
            final(self).pages_history == old(self).pages_history,
            final(self).undone_pages_history == old(self).undone_pages_history,
            final(self).image_buffer == old(self).image_buffer,
            final(self).drawing_information == old(self).drawing_information,
    {
        let ghost prev = self.pages@;
        let page = Page::new();
        self.pages.push(page);
        proof {
            assert(prev.map_values(|p: Page| p@).len() == prev.len());
            assert(pages_view(self.pages@) =~~= pages_view(prev).push(
                PageView { lines: Seq::empty(), images: Seq::empty() },
            ));
        }
    }

    /// Remove the current page and fall back to the first page; the last
    /// page can never be removed.
    pub fn remove_page(&mut self)
        requires
            old(self).wf(),
        ensures
            final(self).wf(),
            old(self).pages@.len() <= 1 ==> *final(self) == *old(self),
            old(self).pages@.len() > 1 ==> pages_view(final(self).pages@) == pages_view(
                old(self).pages@,
            ).remove(old(self).current_page as int) && final(self).current_page == 0,
            final(self).pages_history == old(self).pages_history,
            final(self).undone_pages_history == old(self).undone_pages_history,
            final(self).image_buffer == old(self).image_buffer,
            final(self).drawing_information == old(self).drawing_information,
    {
        if self.pages.len() > 1 {
            let ghost prev = self.pages@;
            let cp = self.current_page;
            self.pages.remove(cp);
            self.current_page = 0;
            proof {
                assert(pages_view(self.pages@) =~~= pages_view(prev).remove(cp as int));
            }
        }
    }

    /// Move the current page one position later in the document, following
    /// it with the current-page index; the last page stays put.
    pub fn move_page_down(&mut self)
        requires
            old(self).wf(),
        ensures
            final(self).wf(),
            old(self).current_page + 1 >= old(self).pages@.len() ==> *final(self) == *old(self),
            old(self).current_page + 1 < old(self).pages@.len() ==> {
                &&& final(self).current_page == old(self).current_page + 1
                &&& pages_view(final(self).pages@) == pages_view(old(self).pages@).remove(
                    old(self).current_page as int,
                ).insert(
                    old(self).current_page + 1,
                    pages_view(old(self).pages@)[old(self).current_page as int],
                )
            },
            final(self).pages_history == old(self).pages_history,
            final(self).undone_pages_history == old(self).undone_pages_history,
            final(self).image_buffer == old(self).image_buffer,
            final(self).drawing_information == old(self).drawing_information,
    {
        if self.current_page < self.pages.len() - 1 {
            let ghost prev = self.pages@;
            let cp = self.current_page;
            let page = self.pages.remove(cp);
            self.current_page = cp + 1;
            self.pages.insert(cp + 1, page);
            proof {
                assert(pages_view(self.pages@) =~~= pages_view(prev).remove(cp as int).insert(
                    cp + 1,
                    pages_view(prev)[cp as int],
                ));
            }
        }
    }

    /// Move the current page one position earlier in the document,
    /// following it with the current-page index; the first page stays put.
    pub fn move_page_up(&mut self)
        requires
            old(self).wf(),
        ensures
            final(self).wf(),
            old(self).current_page == 0 ==> *final(self) == *old(self),
            old(self).current_page > 0 ==> {
                &&& final(self).current_page == old(self).current_page - 1
                &&& pages_view(final(self).pages@) == pages_view(old(self).pages@).remove(
                    old(self).current_page as int,
                ).insert(
                    old(self).current_page - 1,
                    pages_view(old(self).pages@)[old(self).current_page as int],
                )
            },
            final(self).pages_history == old(self).pages_history,
            final(self).undone_pages_history == old(self).undone_pages_history,
            final(self).image_buffer == old(self).image_buffer,
            final(self).drawing_information == old(self).drawing_information,
    {
        if self.current_page > 0 {
            let ghost prev = self.pages@;
            let cp = self.current_page;
            let page = self.pages.remove(cp);
            self.current_page = cp - 1;
            self.pages.insert(cp - 1, page);
            proof {
                assert(pages_view(self.pages@) =~~= pages_view(prev).remove(cp as int).insert(
                    cp - 1,
                    pages_view(prev)[cp as int],
                ));
            }
        }
    }

    /// Show another page: the host hands over the decoded raster
    /// dimensions of that page's images, rebuilding the cache the renderer
    /// and the drag tool read.
    pub fn set_current_page(&mut self, index: usize, image_buffer: Vec<BufferedImage>)
        requires
            old(self).wf(),
            index < old(self).pages@.len(),
            image_buffer@.len() == old(self).pages@[index as int].images@.len(),
        ensures
            final(self).wf(),
            final(self).current_page == index,
            final(self).image_buffer == image_buffer,
            final(self).pages == old(self).pages,
            final(self).pages_history == old(self).pages_history,
            final(self).undone_pages_history == old(self).undone_pages_history,
            final(self).drawing_information == old(self).drawing_information,
    {
        self.current_page = index;
        self.image_buffer = image_buffer;
    }

    /// A page with its stroke list replaced.
    pub open spec fn with_lines(
        p: PageView,
        lines: Seq<Seq<crate::canvas::Drawpoint>>,
    ) -> PageView {
        PageView { lines, images: p.images }
    }

    /// A page with its image list replaced.
    pub open spec fn with_images(p: PageView, images: Seq<crate::canvas::ImageView>) -> PageView {
        PageView { lines: p.lines, images }
    }

    /// The stroke list of the current page.
    pub open spec fn cur_lines(self) -> Seq<Seq<crate::canvas::Drawpoint>> {
        pages_view(self.pages@)[self.current_page as int].lines
    }

    /// The image list of the current page.
    pub open spec fn cur_images(self) -> Seq<crate::canvas::ImageView> {
        pages_view(self.pages@)[self.current_page as int].images
    }

    /// Route one pointer-move sample to the selected tool, handing it the
    /// current page, the raster cache and the current drawing settings.
    /// Which tool runs, and what it does to the page and to its own state,
    /// is exactly what that tool's own contract says of it.
    pub fn manipulate(&mut self, position: Point)
        requires
            old(self).wf(),
            old(self).drawing_information.current_draw_tool == CurrentDrawTool::Pencil && old(self).drawing_information.pen_is_active ==> old(self).cur_lines().len() > 0,
            old(self).drawing_information.current_draw_tool == CurrentDrawTool::Eraser ==> {
                &&& crate::canvas::lines_in_bounds(old(self).cur_lines())
                &&& crate::geometry::in_bounds(position)
                &&& 0 <= old(self).drawing_information.pen_size <= crate::geometry::MAX_COORD
            },
            old(self).drawing_information.current_draw_tool == CurrentDrawTool::LineEraser ==> {
                &&& crate::canvas::lines_in_bounds(old(self).cur_lines())
                &&& crate::geometry::in_bounds(position)
                &&& 0 <= old(self).drawing_information.pen_size <= crate::geometry::MAX_COORD
            },
            old(self).drawing_information.current_draw_tool == CurrentDrawTool::LineTool && old(self).drawing_information.pen_is_active ==> {
                &&& old(self).cur_lines().len() > 0
                &&& crate::line_tool::in_line_bounds(position)
                &&& (old(self).cur_lines().last().len() > 0 ==> crate::line_tool::in_line_bounds(
                    old(self).cur_lines().last()[0].position,
                ))
            },
            old(self).drawing_information.current_draw_tool == CurrentDrawTool::Drag ==> {
                &&& old(self).cur_images().len() == old(self).image_buffer@.len()
                &&& (old(self).drawing_information.pen_is_active ==> {
                    &&& crate::geometry::in_bounds(position)
                    &&& crate::canvas::lines_in_bounds(old(self).cur_lines())
                    &&& crate::drag::images_in_bounds(
                        old(self).cur_images(),
                        old(self).image_buffer@,
                    )
                })
                &&& (old(self).drawing_information.pen_is_active && old(self).drag.previous_pen_is_active ==> crate::geometry::in_bounds(
                    old(self).drag.starting_position,
                ))
                &&& (old(self).drawing_information.pen_is_active && old(self).drag.previous_pen_is_active && old(self).drag.mode
                    == crate::drag::DragMode::Line ==> {
                    &&& old(self).drag.selection_index < old(self).cur_lines().len()
                    &&& old(self).drag.selection_index < old(self).drag.previous_lines@.len()
                    &&& crate::canvas::lines_in_bounds(lines_view(old(self).drag.previous_lines))
                })
                &&& (old(self).drawing_information.pen_is_active && old(self).drag.previous_pen_is_active && old(self).drag.mode
                    == crate::drag::DragMode::BufferedImage ==> {
                    &&& old(self).cur_images().len() > 0
                    &&& old(self).drag.selection_index < old(self).cur_images().len()
                    &&& crate::geometry::in_bounds(
                        old(self).drag.previous_buffered_image_position,
                    )
                })
            },
            old(self).drawing_information.current_draw_tool == CurrentDrawTool::RectangleSelection
                ==> {
                &&& (old(self).drawing_information.pen_is_active && !old(self).rectangle_selection.previous_pen_is_active ==> {
                    &&& crate::geometry::in_bounds(position)
                    &&& crate::canvas::lines_in_bounds(old(self).cur_lines())
                    &&& crate::rectangle_selection::rect_in_bounds(
                        old(self).rectangle_selection.rectangle,
                    )
                })
                &&& (old(self).drawing_information.pen_is_active && old(self).rectangle_selection.previous_pen_is_active && old(self).rectangle_selection.mode
                    == crate::rectangle_selection::RectangleSelectionMode::Translation ==> {
                    &&& crate::geometry::in_bounds(position)
                    &&& crate::geometry::in_bounds(
                        old(self).rectangle_selection.starting_position,
                    )
                    &&& crate::rectangle_selection::rect_in_bounds(
                        old(self).rectangle_selection.previous_rectangle,
                    )
                    &&& crate::canvas::lines_in_bounds(
                        lines_view(old(self).rectangle_selection.previous_lines),
                    )
                    &&& (forall|t: int|
                        0 <= t < old(self).rectangle_selection.selection@.len() ==> #[trigger] old(self).rectangle_selection.selection@[t] < old(self).cur_lines().len() && old(self).rectangle_selection.selection@[t] < old(self).rectangle_selection.previous_lines@.len())
                })
                &&& (!old(self).drawing_information.pen_is_active && old(self).rectangle_selection.previous_pen_is_active ==> old(self).cur_lines().len() > 0)
            },
        ensures
            final(self).wf(),
            final(self).current_page == old(self).current_page,
            final(self).pages@.len() == old(self).pages@.len(),
            final(self).pages_history == old(self).pages_history,
            final(self).undone_pages_history == old(self).undone_pages_history,
            final(self).image_buffer == old(self).image_buffer,
            final(self).drawing_information == old(self).drawing_information,
            old(self).drawing_information.current_draw_tool != CurrentDrawTool::Drag ==> final(self).drag == old(self).drag,
            old(self).drawing_information.current_draw_tool != CurrentDrawTool::RectangleSelection
                ==> final(self).rectangle_selection == old(self).rectangle_selection,
            old(self).drawing_information.current_draw_tool == CurrentDrawTool::Pencil ==> (if old(self).drawing_information.pen_is_active {
                pages_view(final(self).pages@) == pages_view(old(self).pages@).update(
                    old(self).current_page as int,
                    Self::with_lines(
                        pages_view(old(self).pages@)[old(self).current_page as int],
                        old(self).cur_lines().update(
                            old(self).cur_lines().len() - 1,
                            old(self).cur_lines().last().push(
                                crate::canvas::Drawpoint {
                                    position,
                                    line_width: old(self).drawing_information.pen_size,
                                    rgba: old(self).drawing_information.rgba,
                                },
                            ),
                        ),
                    ),
                )
            } else {
                pages_view(final(self).pages@) == pages_view(old(self).pages@)
            }),
            old(self).drawing_information.current_draw_tool == CurrentDrawTool::Eraser ==> (if old(self).drawing_information.pen_is_active {
                pages_view(final(self).pages@) == pages_view(old(self).pages@).update(
                    old(self).current_page as int,
                    Self::with_lines(
                        pages_view(old(self).pages@)[old(self).current_page as int],
                        crate::eraser::erase_result(
                            old(self).cur_lines(),
                            position,
                            old(self).drawing_information.pen_size,
                        ),
                    ),
                )
            } else {
                pages_view(final(self).pages@) == pages_view(old(self).pages@)
            }),
            old(self).drawing_information.current_draw_tool == CurrentDrawTool::LineEraser ==> (
            if old(self).drawing_information.pen_is_active {
                pages_view(final(self).pages@) == pages_view(old(self).pages@).update(
                    old(self).current_page as int,
                    Self::with_lines(
                        pages_view(old(self).pages@)[old(self).current_page as int],
                        crate::line_eraser::retain_missed(
                            old(self).cur_lines(),
                            position,
                            old(self).drawing_information.pen_size,
                        ),
                    ),
                )
            } else {
                pages_view(final(self).pages@) == pages_view(old(self).pages@)
            }),
            old(self).drawing_information.current_draw_tool == CurrentDrawTool::LineTool ==> (
            if old(self).drawing_information.pen_is_active {
                pages_view(final(self).pages@) == pages_view(old(self).pages@).update(
                    old(self).current_page as int,
                    Self::with_lines(
                        pages_view(old(self).pages@)[old(self).current_page as int],
                        old(self).cur_lines().update(
                            old(self).cur_lines().len() - 1,
                            crate::line_tool::resampled_stroke(
                                crate::line_tool::line_start(
                                    old(self).cur_lines().last(),
                                    position,
                                    old(self).drawing_information.pen_size,
                                    old(self).drawing_information.rgba,
                                ),
                                position,
                                old(self).drawing_information.pen_size,
                                old(self).drawing_information.rgba,
                            ),
                        ),
                    ),
                )
            } else {
                pages_view(final(self).pages@) == pages_view(old(self).pages@)
            }),
            old(self).drawing_information.current_draw_tool == CurrentDrawTool::Clear
                ==> pages_view(final(self).pages@) == pages_view(old(self).pages@).update(
                old(self).current_page as int,
                Self::with_lines(
                    pages_view(old(self).pages@)[old(self).current_page as int],
                    Seq::empty(),
                ),
            ),
            old(self).drawing_information.current_draw_tool == CurrentDrawTool::Drag ==> {
                &&& final(self).drag.previous_pen_is_active == old(self).drawing_information.pen_is_active
                &&& (!old(self).drawing_information.pen_is_active ==> pages_view(
                    final(self).pages@,
                ) == pages_view(old(self).pages@) && final(self).drag.selection_index == old(
                    self,
                ).drag.selection_index && final(self).drag.mode == old(self).drag.mode)
                &&& (old(self).drawing_information.pen_is_active ==> final(self).drag.mode == (
                if !old(self).drag.previous_pen_is_active {
                    crate::drag::drag_mode_of(
                        old(self).cur_lines(),
                        old(self).cur_images(),
                        old(self).image_buffer@,
                        position,
                    )
                } else {
                    old(self).drag.mode
                }) && final(self).drag.starting_position == (if !old(self).drag.previous_pen_is_active {
                    position
                } else {
                    old(self).drag.starting_position
                }))
                &&& (old(self).drawing_information.pen_is_active && final(self).drag.mode
                    == crate::drag::DragMode::NoTarget ==> pages_view(final(self).pages@)
                    == pages_view(old(self).pages@))
                &&& (old(self).drawing_information.pen_is_active && final(self).drag.mode
                    == crate::drag::DragMode::Line ==> pages_view(final(self).pages@)
                    == pages_view(old(self).pages@).update(
                    old(self).current_page as int,
                    Self::with_lines(
                        pages_view(old(self).pages@)[old(self).current_page as int],
                        old(self).cur_lines().update(
                            final(self).drag.selection_index as int,
                            crate::drag::drag_stroke(
                                old(self).cur_lines()[final(self).drag.selection_index as int],
                                lines_view(final(self).drag.previous_lines)[final(self).drag.selection_index as int],
                                Point {
                                    x: (position.x - final(self).drag.starting_position.x) as i64,
                                    y: (position.y - final(self).drag.starting_position.y) as i64,
                                },
                            ),
                        ),
                    ),
                ))
                &&& (old(self).drawing_information.pen_is_active && final(self).drag.mode
                    == crate::drag::DragMode::BufferedImage ==> pages_view(final(self).pages@)
                    == pages_view(old(self).pages@).update(
                    old(self).current_page as int,
                    Self::with_images(
                        pages_view(old(self).pages@)[old(self).current_page as int],
                        old(self).cur_images().update(
                            final(self).drag.selection_index as int,
                            crate::canvas::ImageView {
                                path: old(self).cur_images()[final(self).drag.selection_index as int].path,
                                position: crate::drag::dragged_image_anchor(
                                    final(self).drag.previous_buffered_image_position,
                                    Point {
                                        x: (position.x - final(self).drag.starting_position.x) as i64,
                                        y: (position.y - final(self).drag.starting_position.y) as i64,
                                    },
                                    old(self).image_buffer@[final(self).drag.selection_index as int],
                                ),
                            },
                        ),
                    ),
                ))
            },
            old(self).drawing_information.current_draw_tool == CurrentDrawTool::RectangleSelection
                ==> {
                &&& final(self).rectangle_selection.previous_pen_is_active == old(self).drawing_information.pen_is_active
                &&& (!old(self).drawing_information.pen_is_active && !old(
                    self,
                ).rectangle_selection.previous_pen_is_active ==> pages_view(final(self).pages@)
                    == pages_view(old(self).pages@))
                &&& (!old(self).drawing_information.pen_is_active && old(self).rectangle_selection.previous_pen_is_active ==> pages_view(final(self).pages@)
                    == pages_view(old(self).pages@).update(
                    old(self).current_page as int,
                    Self::with_lines(
                        pages_view(old(self).pages@)[old(self).current_page as int],
                        old(self).cur_lines().update(old(self).cur_lines().len() - 1, Seq::empty()),
                    ),
                ))
                &&& (old(self).drawing_information.pen_is_active ==> {
                    &&& final(self).rectangle_selection.starting_position == (if !old(self).rectangle_selection.previous_pen_is_active {
                        position
                    } else {
                        old(self).rectangle_selection.starting_position
                    })
                    &&& final(self).rectangle_selection.mode == (if !old(self).rectangle_selection.previous_pen_is_active {
                        if crate::rectangle_selection::in_rect(
                            old(self).rectangle_selection.rectangle,
                            position,
                        ) {
                            crate::rectangle_selection::RectangleSelectionMode::Translation
                        } else {
                            crate::rectangle_selection::RectangleSelectionMode::Selection
                        }
                    } else {
                        old(self).rectangle_selection.mode
                    })
                    &&& final(self).rectangle_selection.selection@ == (if !old(self).rectangle_selection.previous_pen_is_active {
                        crate::rectangle_selection::selected_after(
                            Seq::<usize>::empty(),
                            old(self).cur_lines(),
                            old(self).rectangle_selection.rectangle,
                        )
                    } else {
                        old(self).rectangle_selection.selection@
                    })
                })
                &&& (old(self).drawing_information.pen_is_active && final(self).rectangle_selection.mode
                    == crate::rectangle_selection::RectangleSelectionMode::Selection ==> pages_view(
                    final(self).pages@,
                ) == pages_view(old(self).pages@) && final(self).rectangle_selection.rectangle
                    == crate::rectangle_selection::rect_between(
                    final(self).rectangle_selection.starting_position,
                    position,
                ))
                &&& (old(self).drawing_information.pen_is_active && final(self).rectangle_selection.mode
                    == crate::rectangle_selection::RectangleSelectionMode::Translation ==> final(self).rectangle_selection.rectangle == crate::rectangle_selection::translate_rect(
                    final(self).rectangle_selection.previous_rectangle,
                    Point {
                        x: (position.x - final(self).rectangle_selection.starting_position.x) as i64,
                        y: (position.y - final(self).rectangle_selection.starting_position.y) as i64,
                    },
                ) && pages_view(final(self).pages@) == pages_view(old(self).pages@).update(
                    old(self).current_page as int,
                    Self::with_lines(
                        pages_view(old(self).pages@)[old(self).current_page as int],
                        crate::rectangle_selection::translate_selected(
                            old(self).cur_lines(),
                            final(self).rectangle_selection.selection@,
                            lines_view(final(self).rectangle_selection.previous_lines),
                            Point {
                                x: (position.x - final(self).rectangle_selection.starting_position.x) as i64,
                                y: (position.y - final(self).rectangle_selection.starting_position.y) as i64,
                            },
                        ),
                    ),
                ))
            },
    {
        let pen_size = self.drawing_information.pen_size;
        let pen_is_active = self.drawing_information.pen_is_active;
        let rgba = self.drawing_information.rgba;
        let cp = self.current_page;
        let ghost pv = pages_view(self.pages@);
        match self.drawing_information.current_draw_tool {
            CurrentDrawTool::Pencil => {
                let page = &mut self.pages[cp];
                self.pencil.manipulate(&mut page.lines, position, pen_size, pen_is_active, rgba);
                proof {
                    if pen_is_active {
                        assert(pages_view(self.pages@) =~~= pv.update(
                            cp as int,
                            Self::with_lines(
                                pv[cp as int],
                                pv[cp as int].lines.update(
                                    pv[cp as int].lines.len() - 1,
                                    pv[cp as int].lines.last().push(
                                        crate::canvas::Drawpoint {
                                            position,
                                            line_width: pen_size,
                                            rgba,
                                        },
                                    ),
                                ),
                            ),
                        ));
                    } else {
                        assert(pages_view(self.pages@) =~~= pages_view(old(self).pages@));
                    }
                }
            },
            CurrentDrawTool::Eraser => {
                let page = &mut self.pages[cp];
                self.eraser.manipulate(&mut page.lines, position, pen_size, pen_is_active);
                proof {
                    if pen_is_active {
                        assert(pages_view(self.pages@) =~~= pv.update(
                            cp as int,
                            Self::with_lines(
                                pv[cp as int],
                                crate::eraser::erase_result(pv[cp as int].lines, position, pen_size),
                            ),
                        ));
                    } else {
                        assert(pages_view(self.pages@) =~~= pages_view(old(self).pages@));
                    }
                }
            },
            CurrentDrawTool::LineEraser => {
                let page = &mut self.pages[cp];
                self.line_eraser.manipulate(&mut page.lines, position, pen_size, pen_is_active);
                proof {
                    if pen_is_active {
                        assert(pages_view(self.pages@) =~~= pv.update(
                            cp as int,
                            Self::with_lines(
                                pv[cp as int],
                                crate::line_eraser::retain_missed(
                                    pv[cp as int].lines,
                                    position,
                                    pen_size,
                                ),
                            ),
                        ));
                    } else {
                        assert(pages_view(self.pages@) =~~= pages_view(old(self).pages@));
                    }
                }
            },
            CurrentDrawTool::LineTool => {
                let page = &mut self.pages[cp];
                self.line_tool.manipulate(&mut page.lines, position, pen_size, pen_is_active, rgba);
                proof {
                    if pen_is_active {
                        assert(pages_view(self.pages@) =~~= pv.update(
                            cp as int,
                            Self::with_lines(
                                pv[cp as int],
                                pv[cp as int].lines.update(
                                    pv[cp as int].lines.len() - 1,
                                    crate::line_tool::resampled_stroke(
                                        crate::line_tool::line_start(
                                            pv[cp as int].lines.last(),
                                            position,
                                            pen_size,
                                            rgba,
                                        ),
                                        position,
                                        pen_size,
                                        rgba,
                                    ),
                                ),
                            ),
                        ));
                    } else {
                        assert(pages_view(self.pages@) =~~= pages_view(old(self).pages@));
                    }
                }
            },
            CurrentDrawTool::Drag => {
                let page = &mut self.pages[cp];
                self.drag.manipulate(
                    &mut page.lines,
                    &mut page.images,
                    &self.image_buffer,
                    position,
                    pen_size,
                    pen_is_active,
                    rgba,
                );
                proof {
                    if !pen_is_active {
                        assert(pages_view(self.pages@) =~~= pages_view(old(self).pages@));
                    } else {
                        match self.drag.mode {
                            crate::drag::DragMode::NoTarget => {
                                assert(pages_view(self.pages@) =~~= pages_view(old(self).pages@));
                            },
                            crate::drag::DragMode::Line => {
                                assert(pages_view(self.pages@) =~~= pv.update(
                                    cp as int,
                                    Self::with_lines(
                                        pv[cp as int],
                                        pv[cp as int].lines.update(
                                            self.drag.selection_index as int,
                                            crate::drag::drag_stroke(
                                                pv[cp as int].lines[self.drag.selection_index as int],
                                                lines_view(self.drag.previous_lines)[self.drag.selection_index as int],
                                                Point {
                                                    x: (position.x
                                                        - self.drag.starting_position.x) as i64,
                                                    y: (position.y
                                                        - self.drag.starting_position.y) as i64,
                                                },
                                            ),
                                        ),
                                    ),
                                ));
                            },
                            crate::drag::DragMode::BufferedImage => {
                                assert(pages_view(self.pages@) =~~= pv.update(
                                    cp as int,
                                    Self::with_images(
                                        pv[cp as int],
                                        pv[cp as int].images.update(
                                            self.drag.selection_index as int,
                                            crate::canvas::ImageView {
                                                path: pv[cp as int].images[self.drag.selection_index as int].path,
                                                position: crate::drag::dragged_image_anchor(
                                                    self.drag.previous_buffered_image_position,
                                                    Point {
                                                        x: (position.x
                                                            - self.drag.starting_position.x) as i64,
                                                        y: (position.y
                                                            - self.drag.starting_position.y) as i64,
                                                    },
                                                    self.image_buffer@[self.drag.selection_index as int],
                                                ),
                                            },
                                        ),
                                    ),
                                ));
                            },
                        }
                    }
                }
            },
            CurrentDrawTool::RectangleSelection => {
                let page = &mut self.pages[cp];
                self.rectangle_selection.manipulate(
                    &mut page.lines,
                    position,
                    pen_size,
                    pen_is_active,
                );
                proof {
                    if !pen_is_active {
                        if old(self).rectangle_selection.previous_pen_is_active {
                            assert(pages_view(self.pages@) =~~= pv.update(
                                cp as int,
                                Self::with_lines(
                                    pv[cp as int],
                                    pv[cp as int].lines.update(
                                        pv[cp as int].lines.len() - 1,
                                        Seq::empty(),
                                    ),
                                ),
                            ));
                        } else {
                            assert(pages_view(self.pages@) =~~= pages_view(old(self).pages@));
                        }
                    } else {
                        match self.rectangle_selection.mode {
                            crate::rectangle_selection::RectangleSelectionMode::Selection => {
                                assert(pages_view(self.pages@) =~~= pages_view(old(self).pages@));
                            },
                            crate::rectangle_selection::RectangleSelectionMode::Translation => {
                                assert(pages_view(self.pages@) =~~= pv.update(
                                    cp as int,
                                    Self::with_lines(
                                        pv[cp as int],
                                        crate::rectangle_selection::translate_selected(
                                            pv[cp as int].lines,
                                            self.rectangle_selection.selection@,
                                            lines_view(self.rectangle_selection.previous_lines),
                                            Point {
                                                x: (position.x
                                                    - self.rectangle_selection.starting_position.x) as i64,
                                                y: (position.y
                                                    - self.rectangle_selection.starting_position.y) as i64,
                                            },
                                        ),
                                    ),
                                ));
                            },
                        }
                    }
                }
            },
            CurrentDrawTool::Clear => {
                let page = &mut self.pages[cp];
                self.clear.manipulate(&mut page.lines);
                proof {
                    assert(pages_view(self.pages@) =~~= pv.update(
                        cp as int,
                        Self::with_lines(pv[cp as int], Seq::empty()),
                    ));
                }
            },
        }
    }

    /// Place an imported image on the current page: the host has chosen
    /// the file, decoded it, and hands over the path, the anchor position
    /// and the decoded raster dimensions for the cache.
    pub fn import_image(
        &mut self,
        path: Vec<u8>,
        position: Point,
        buffered_image: BufferedImage,
    )
        requires
            old(self).wf(),
        ensures
            final(self).wf(),
            pages_view(final(self).pages@) == pages_view(old(self).pages@).update(
                old(self).current_page as int,
                Self::with_images(
                    pages_view(old(self).pages@)[old(self).current_page as int],
                    old(self).cur_images().push(
                        crate::canvas::ImageView { path: path@, position },
                    ),
                ),
            ),
            final(self).image_buffer@ == old(self).image_buffer@.push(buffered_image),
            final(self).current_page == old(self).current_page,
            final(self).pages_history == old(self).pages_history,
            final(self).undone_pages_history == old(self).undone_pages_history,
            final(self).drawing_information == old(self).drawing_information,
    {
        let cp = self.current_page;
        let ghost pv = pages_view(self.pages@);
        let ghost pathv = path@;
        let page = &mut self.pages[cp];
        let ghost prev_images = page.images@;
        page.images.push(crate::canvas::Image::new(path, position));
        proof {
            assert(prev_images.map_values(|im: crate::canvas::Image| im@).len()
                == prev_images.len());
            assert(images_view(self.pages@[cp as int].images) =~~= pv[cp as int].images.push(
                crate::canvas::ImageView { path: pathv, position },
            ));
            assert(pages_view(self.pages@) =~~= pv.update(
                cp as int,
                Self::with_images(
                    pv[cp as int],
                    pv[cp as int].images.push(
                        crate::canvas::ImageView { path: pathv, position },
                    ),
                ),
            ));
        }
        self.image_buffer.push(buffered_image);
    }

    /// Serialize the document for saving; the host writes the bytes out.
    pub fn save(&self) -> (r: Vec<u8>)
        ensures
            r@ == ser_doc(pages_view(self.pages@)),
    {
        serialize_pages(&self.pages)
    }

    /// Replace the document with a loaded one: the pages become the parsed
    /// page list, the current page resets to the first, the history
    /// restarts at the loaded state and the redo stack empties; the raster
    /// cache is cleared for the host to rebuild from decode.  A stream
    /// that is not a canonical document, or one with no pages, is refused
    /// and the whole state stays untouched.
    pub fn load(&mut self, input: &Vec<u8>) -> (r: Result<(), DataError>)
        requires
            old(self).wf(),
        ensures
            final(self).wf(),
            (r is Ok <==> (p_doc(input@) is Some && p_doc(input@)->Some_0.len() > 0)),
            r is Err ==> *final(self) == *old(self),
            r is Ok ==> {
                &&& pages_view(final(self).pages@) == p_doc(input@)->Some_0
                &&& final(self).current_page == 0
                &&& history_view(final(self).pages_history@) == seq![p_doc(input@)->Some_0]
                &&& final(self).undone_pages_history@.len() == 0
                &&& final(self).image_buffer@.len() == 0
                &&& final(self).drawing_information == old(self).drawing_information
            },
    {
        match deserialize_pages(input) {
            Ok(pages) => {
                if pages.len() == 0 {
                    return Err(DataError::Malformed);
                }
                let snapshot = clone_pages(&pages);
                self.pages = pages;
                self.current_page = 0;
                let mut fresh_history: Vec<Vec<Page>> = Vec::new();
                fresh_history.push(snapshot);
                self.pages_history = fresh_history;
                self.undone_pages_history = Vec::new();
                self.image_buffer = Vec::new();
                proof {
                    assert(history_view(self.pages_history@) =~~= seq![p_doc(input@)->Some_0]);
                }
                Ok(())
            },
            Err(e) => Err(e),
        }
    }
}

} // verus!
