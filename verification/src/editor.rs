//! The editor's state and the decisions it takes on each frame: which path is
//! selected, what the keys and the pointer do, and how the grid button cycles.
//!
//! The paths themselves are of any type `T`: their geometry is not read here.

use vstd::prelude::*;
use crate::selection::{clicked_path, next_hit, is_next_hit, some_other_hit, scan_start, scan_key};

verus! {

/// The three states of the grid.
#[derive(Clone, Copy, Debug, PartialEq, Eq, Structural)]
pub enum GridStatus {
    Off,
    OnButInvisible,
    OnAndVisible,
}

/// The state after the grid button is clicked: visible, then invisible, then
/// off, then visible again.
pub open spec fn grid_after_click(g: GridStatus) -> GridStatus {
    match g {
        GridStatus::OnAndVisible => GridStatus::OnButInvisible,
        GridStatus::OnButInvisible => GridStatus::Off,
        GridStatus::Off => GridStatus::OnAndVisible,
    }
}

impl GridStatus {
    /// The state after the grid button is clicked.
    pub fn clicked(self) -> (res: GridStatus)
        ensures
            res == grid_after_click(self),
            self == GridStatus::OnAndVisible ==> res == GridStatus::OnButInvisible,
            self == GridStatus::OnButInvisible ==> res == GridStatus::Off,
            self == GridStatus::Off ==> res == GridStatus::OnAndVisible,
    {
        match self {
            GridStatus::OnAndVisible => GridStatus::OnButInvisible,
            GridStatus::OnButInvisible => GridStatus::Off,
            GridStatus::Off => GridStatus::OnAndVisible,
        }
    }

    /// The grid lines are painted.
    pub fn is_visible(self) -> (res: bool)
        ensures
            res == (self == GridStatus::OnAndVisible),
    {
        match self {
            GridStatus::OnAndVisible => true,
            _ => false,
        }
    }
}

/// Clicking the grid button three times brings the grid back to its state.
pub proof fn lemma_grid_cycle(g: GridStatus)
    ensures
        grid_after_click(grid_after_click(grid_after_click(g))) == g,
        grid_after_click(g) != g,
{
}

/// The keys the editor listens to.
#[derive(Clone, Copy, Debug, PartialEq, Eq, Structural)]
pub enum Key {
    /// Selects the next path.
    N,
    /// Adds a path.
    P,
    /// Deletes the selected path.
    D,
}

/// The pointer's shape.
#[derive(Clone, Copy, Debug, PartialEq, Eq, Structural)]
pub enum CursorKind {
    Default,
    AllScroll,
    ResizeHorizontal,
    ResizeVertical,
}

/// What dragging the pointer does to the selected path.
#[derive(Clone, Copy, Debug, PartialEq, Eq, Structural)]
pub enum DragMode {
    /// Nothing.
    Idle,
    /// Moves the path.
    Move,
    /// Changes its width; the value is the handle that was grabbed (1 or 2).
    Width(i8),
    /// Changes its height.
    Height,
}

/// What the pointer is over at one of the three horizontal offsets at which
/// the wrapping map is shown: the selected path's move handle, its width
/// handle, its height handle, and for each path whether it is under the pointer.
pub struct Probe {
    pub on_move_circle: bool,
    pub on_width_circle: bool,
    pub on_height_circle: bool,
    pub path_hits: Vec<bool>,
}

/// The state of the editor.
pub struct Editor<T> {
    pub paths: Vec<T>,
    pub curr_path: Option<usize>,
    pub grid_status: GridStatus,
    /// A press of `N` is awaited (the key was up on the last frame).
    pub key_n_armed: bool,
    /// A press of `P` is awaited.
    pub key_p_armed: bool,
    /// A press of `D` is awaited.
    pub key_d_armed: bool,
    /// A press of the primary button is awaited.
    pub click_armed: bool,
    pub move_path: bool,
    /// 0 when no width handle is held, else which one.
    pub adjust_w: i8,
    pub adjust_h: bool,
}

/// The selection after `N`: the next path, the first after the last, the
/// first when none is selected.
pub open spec fn next_selection(curr: Option<usize>, len: nat) -> Option<usize> {
    match curr {
        Some(c) => if c + 1 == len { Some(0) } else { Some((c + 1) as usize) },
        None => Some(0),
    }
}

/// The selection after `k` presses of `N`.
pub open spec fn next_selection_iter(curr: Option<usize>, len: nat, k: nat) -> Option<usize>
    decreases k,
{
    if k == 0 {
        curr
    } else {
        next_selection(next_selection_iter(curr, len, (k - 1) as nat), len)
    }
}

/// A key press fires when the key is down and was up on the previous frame;
/// the latch is armed again when the key is up.
pub open spec fn key_fires(armed: bool, down: bool) -> bool {
    down && armed
}

/// Scanning the three offsets for a handle under the pointer: the move handle
/// ends the scan; a width handle at offset `k` records handle `2 - k`; a
/// height handle is recorded.
pub open spec fn scan_handles(probes: Seq<Probe>, k: int, mv: bool, aw: i8, ah: bool) -> (bool, i8, bool)
    decreases probes.len() - k,
{
    if k < 0 || k >= probes.len() {
        (mv, aw, ah)
    } else if probes[k].on_move_circle {
        (true, aw, ah)
    } else if probes[k].on_width_circle {
        scan_handles(probes, k + 1, mv, (2 - k) as i8, ah)
    } else if probes[k].on_height_circle {
        scan_handles(probes, k + 1, mv, aw, true)
    } else {
        scan_handles(probes, k + 1, mv, aw, ah)
    }
}

/// What a click selects at one offset: another path that it hits, or nothing.
pub open spec fn found_at(hits: Seq<bool>, curr: Option<usize>) -> Option<usize> {
    let np = next_hit(hits, curr);
    if np != curr && np is Some {
        np
    } else {
        None
    }
}

/// The selection after a click on the map: what was found at the right-hand
/// offset, else at the middle one, else at the left-hand one (possibly nothing).
pub open spec fn pick_selection(f0: Option<usize>, f1: Option<usize>, f2: Option<usize>) -> Option<usize> {
    if f2 is Some {
        f2
    } else if f1 is Some {
        f1
    } else {
        f0
    }
}

/// The pointer's shape while hovering, scanning the three offsets; the last
/// offset that decides wins.
pub open spec fn scan_cursor(probes: Seq<Probe>, k: int, mv: bool, aw: i8, ah: bool, c: CursorKind) -> CursorKind
    decreases probes.len() - k,
{
    if k < 0 || k >= probes.len() {
        c
    } else {
        let next = if probes[k].on_move_circle || mv {
            CursorKind::AllScroll
        } else if probes[k].on_width_circle || aw != 0 {
            CursorKind::ResizeHorizontal
        } else if probes[k].on_height_circle || ah {
            CursorKind::ResizeVertical
        } else {
            c
        };
        scan_cursor(probes, k + 1, mv, aw, ah, next)
    }
}

impl<T> Editor<T> {
    /// The editor's invariant: there is always a path, the selection is a
    /// path, and the width handle is 0, 1 or 2.
    pub open spec fn wf(&self) -> bool {
        &&& self.paths.len() >= 1
        &&& (self.curr_path matches Some(c) ==> c < self.paths.len())
        &&& 0 <= self.adjust_w <= 2
    }

    /// Probes fit the editor: one per offset, one hit per path.
    pub open spec fn probes_fit(&self, probes: Seq<Probe>) -> bool {
        &&& probes.len() == 3
        &&& forall|k: int| 0 <= k < 3 ==> (#[trigger] probes[k]).path_hits.len() == self.paths.len()
    }

    /// A new editor holding one path, which is selected, with a visible grid.
    pub fn new(first: T) -> (res: Self)
        ensures
            res.wf(),
            res.paths@ == seq![first],
            res.curr_path == Some(0usize),
            res.grid_status == GridStatus::OnAndVisible,
            !res.key_n_armed && !res.key_p_armed && !res.key_d_armed && !res.click_armed,
            !res.move_path && res.adjust_w == 0 && !res.adjust_h,
    {
        let mut paths: Vec<T> = Vec::new();
        paths.push(first);
        Editor {
            paths,
            curr_path: Some(0),
            grid_status: GridStatus::OnAndVisible,
            key_n_armed: false,
            key_p_armed: false,
            key_d_armed: false,
            click_armed: false,
            move_path: false,
            adjust_w: 0,
            adjust_h: false,
        }
    }

    /// Deletes the selected path and selects the first one, unless it is the
    /// only path or none is selected.
    pub fn delete_path(&mut self)
        requires
            old(self).wf(),
        ensures
            final(self).wf(),
            final(self).grid_status == old(self).grid_status,
            final(self).move_path == old(self).move_path,
            final(self).adjust_w == old(self).adjust_w,
            final(self).adjust_h == old(self).adjust_h,
            final(self).click_armed == old(self).click_armed,
            final(self).key_n_armed == old(self).key_n_armed,
            final(self).key_p_armed == old(self).key_p_armed,
            final(self).key_d_armed == old(self).key_d_armed,
            match old(self).curr_path {
                Some(c) => if old(self).paths.len() > 1 {
                    &&& final(self).paths@ == old(self).paths@.remove(c as int)
                    &&& final(self).curr_path == Some(0usize)
                } else {
                    &&& final(self).paths@ == old(self).paths@
                    &&& final(self).curr_path == old(self).curr_path
                },
                None => {
                    &&& final(self).paths@ == old(self).paths@
                    &&& final(self).curr_path == old(self).curr_path
                },
            },
    {
        match self.curr_path {
            None => {},
            Some(c) => {
                if self.paths.len() > 1 {
                    self.paths.remove(c);
                    self.curr_path = Some(0);
                }
            },
        }
    }

    /// Adds a path at the end and selects it.
    pub fn add_path(&mut self, path: T)
        requires
            old(self).wf(),
            old(self).paths.len() < usize::MAX,
        ensures
            final(self).wf(),
            final(self).paths@ == old(self).paths@.push(path),
            final(self).curr_path == Some(old(self).paths.len()),
            final(self).grid_status == old(self).grid_status,
            final(self).move_path == old(self).move_path,
            final(self).adjust_w == old(self).adjust_w,
            final(self).adjust_h == old(self).adjust_h,
            final(self).click_armed == old(self).click_armed,
            final(self).key_n_armed == old(self).key_n_armed,
            final(self).key_p_armed == old(self).key_p_armed,
            final(self).key_d_armed == old(self).key_d_armed,
    {
        self.paths.push(path);
        self.curr_path = Some(self.paths.len() - 1);
    }

    /// Selects the next path, wrapping from the last to the first.
    pub fn next_path(&mut self)
        requires
            old(self).wf(),
        ensures
            final(self).wf(),
            final(self).curr_path == next_selection(old(self).curr_path, old(self).paths.len() as nat),
            (old(self).curr_path is None || old(self).curr_path == Some((old(self).paths.len() - 1) as usize))
                ==> final(self).curr_path == Some(0usize),
            (old(self).curr_path is Some && old(self).curr_path.unwrap() + 1 < old(self).paths.len())
                ==> final(self).curr_path == Some((old(self).curr_path.unwrap() + 1) as usize),
            final(self).paths == old(self).paths,
            final(self).grid_status == old(self).grid_status,
            final(self).move_path == old(self).move_path,
            final(self).adjust_w == old(self).adjust_w,
            final(self).adjust_h == old(self).adjust_h,
            final(self).click_armed == old(self).click_armed,
            final(self).key_n_armed == old(self).key_n_armed,
            final(self).key_p_armed == old(self).key_p_armed,
            final(self).key_d_armed == old(self).key_d_armed,
    {
        if self.curr_path == Some(self.paths.len() - 1) {
            self.curr_path = Some(0);
        } else {
            match self.curr_path {
                None => {
                    self.curr_path = Some(0);
                },
                Some(c) => {
                    self.curr_path = Some(c + 1);
                },
            }
        }
    }

    /// Records whether `key` is down on this frame; returns whether the key
    /// was just pressed (down now, up on the previous frame).
    pub fn press_key(&mut self, key: Key, down: bool) -> (fired: bool)
        ensures
            fired == key_fires(
                match key {
                    Key::N => old(self).key_n_armed,
                    Key::P => old(self).key_p_armed,
                    Key::D => old(self).key_d_armed,
                },
                down,
            ),
            final(self).key_n_armed == if key == Key::N { !down } else { old(self).key_n_armed },
            final(self).key_p_armed == if key == Key::P { !down } else { old(self).key_p_armed },
            final(self).key_d_armed == if key == Key::D { !down } else { old(self).key_d_armed },
            final(self).paths == old(self).paths,
            final(self).curr_path == old(self).curr_path,
            final(self).grid_status == old(self).grid_status,
            final(self).move_path == old(self).move_path,
            final(self).adjust_w == old(self).adjust_w,
            final(self).adjust_h == old(self).adjust_h,
            final(self).click_armed == old(self).click_armed,
    {
        let armed = match key {
            Key::N => self.key_n_armed,
            Key::P => self.key_p_armed,
            Key::D => self.key_d_armed,
        };
        match key {
            Key::N => self.key_n_armed = !down,
            Key::P => self.key_p_armed = !down,
            Key::D => self.key_d_armed = !down,
        }
        down && armed
    }

    /// Clicks the grid button.
    pub fn click_grid_button(&mut self)
        ensures
            final(self).grid_status == grid_after_click(old(self).grid_status),
            final(self).paths == old(self).paths,
            final(self).curr_path == old(self).curr_path,
            final(self).move_path == old(self).move_path,
            final(self).adjust_w == old(self).adjust_w,
            final(self).adjust_h == old(self).adjust_h,
            final(self).click_armed == old(self).click_armed,
            final(self).key_n_armed == old(self).key_n_armed,
            final(self).key_p_armed == old(self).key_p_armed,
            final(self).key_d_armed == old(self).key_d_armed,
    {
        self.grid_status = self.grid_status.clicked();
    }

    /// Replaces the map by the last of the maps read from a file (one per
    /// line), and clears the selection. With no line the paths stay.
    pub fn import_map(&mut self, maps: Vec<Vec<T>>)
        requires
            old(self).wf(),
            forall|i: int| 0 <= i < maps.len() ==> (#[trigger] maps@[i]).len() >= 1,
        ensures
            final(self).wf(),
            final(self).curr_path is None,
            final(self).paths@ == if maps.len() == 0 {
                old(self).paths@
            } else {
                maps@.last()@
            },
            final(self).grid_status == old(self).grid_status,
            final(self).move_path == old(self).move_path,
            final(self).adjust_w == old(self).adjust_w,
            final(self).adjust_h == old(self).adjust_h,
            final(self).click_armed == old(self).click_armed,
            final(self).key_n_armed == old(self).key_n_armed,
            final(self).key_p_armed == old(self).key_p_armed,
            final(self).key_d_armed == old(self).key_d_armed,
    {
        self.curr_path = None;
        let mut maps = maps;
        let ghost all = maps@;
        match maps.pop() {
            Some(last) => {
                assert(last == all[all.len() - 1]);
                self.paths = last;
            },
            None => {},
        }
    }

    /// The primary button is down with the pointer at some position;
    /// `above_toolbar` is false when the pointer is over the tool bar.
    /// On the first frame of a press on the map, grabs the handle under the
    /// pointer, or else selects the path under it (or nothing).
    pub fn pointer_down(&mut self, above_toolbar: bool, probes: &Vec<Probe>)
        requires
            old(self).wf(),
            old(self).probes_fit(probes@),
        ensures
            final(self).wf(),
            final(self).paths == old(self).paths,
            final(self).grid_status == old(self).grid_status,
            final(self).key_n_armed == old(self).key_n_armed,
            final(self).key_p_armed == old(self).key_p_armed,
            final(self).key_d_armed == old(self).key_d_armed,
            !final(self).click_armed,
            !(above_toolbar && old(self).click_armed) ==> {
                &&& final(self).curr_path == old(self).curr_path
                &&& final(self).move_path == old(self).move_path
                &&& final(self).adjust_w == old(self).adjust_w
                &&& final(self).adjust_h == old(self).adjust_h
            },
            above_toolbar && old(self).click_armed ==> {
                &&& final(self).move_path == (old(self).move_path || exists|j: int|
                    0 <= j < 3 && (#[trigger] probes@[j]).on_move_circle)
                &&& final(self).adjust_h == (old(self).adjust_h || exists|j: int|
                    #[trigger] before_move(probes@, 0, j) && height_grab_at(probes@, j))
                &&& (forall|j: int| #[trigger] before_move(probes@, 0, j) ==> !width_grab_at(probes@, j))
                    ==> final(self).adjust_w == old(self).adjust_w
                &&& forall|j: int|
                    #[trigger] before_move(probes@, 0, j) && width_grab_at(probes@, j) && (forall|j2: int|
                        before_move(probes@, 0, j2) && width_grab_at(probes@, j2) ==> j2 <= j)
                        ==> final(self).adjust_w == (2 - j) as i8
                &&& (final(self).move_path || final(self).adjust_w != 0 || final(self).adjust_h)
                    ==> final(self).curr_path == old(self).curr_path
                &&& (!final(self).move_path && final(self).adjust_w == 0 && !final(self).adjust_h) ==> {
                    let f0 = found_at(probes@[0].path_hits@, old(self).curr_path);
                    let f1 = found_at(probes@[1].path_hits@, old(self).curr_path);
                    let f2 = found_at(probes@[2].path_hits@, old(self).curr_path);
                    &&& f2 is Some ==> final(self).curr_path == f2
                    &&& (f2 is None && f1 is Some) ==> final(self).curr_path == f1
                    &&& (f2 is None && f1 is None) ==> final(self).curr_path == f0
                    &&& final(self).curr_path matches Some(r) ==> {
                        &&& Some(r) != old(self).curr_path
                        &&& exists|k: int| 0 <= k < 3 && (#[trigger] probes@[k]).path_hits@[r as int]
                    }
                }
            },
            above_toolbar && old(self).click_armed ==> {
                let (mv, aw, ah) = scan_handles(
                    probes@,
                    0,
                    old(self).move_path,
                    old(self).adjust_w,
                    old(self).adjust_h,
                );
                &&& final(self).move_path == mv
                &&& final(self).adjust_w == aw
                &&& final(self).adjust_h == ah
                &&& final(self).curr_path == if !mv && aw == 0 && !ah {
                    pick_selection(
                        found_at(probes@[0].path_hits@, old(self).curr_path),
                        found_at(probes@[1].path_hits@, old(self).curr_path),
                        found_at(probes@[2].path_hits@, old(self).curr_path),
                    )
                } else {
                    old(self).curr_path
                }
            },
    {
        if !above_toolbar {
            self.click_armed = false;
            return;
        }
        if !self.click_armed {
            return;
        }
        let ghost target = scan_handles(probes@, 0, self.move_path, self.adjust_w, self.adjust_h);
        proof {
            lemma_handles(probes@, 0, self.move_path, self.adjust_w, self.adjust_h);
        }
        let mut mv = self.move_path;
        let mut aw = self.adjust_w;
        let mut ah = self.adjust_h;
        let mut stop = false;
        let mut k: usize = 0;
        while k < 3 && !stop
            invariant
                k <= 3,
                probes@.len() == 3,
                0 <= aw <= 2,
                (if stop { (mv, aw, ah) } else { scan_handles(probes@, k as int, mv, aw, ah) }) == target,
            decreases 3 - k,
        {
            if probes[k].on_move_circle {
                mv = true;
                stop = true;
            } else if probes[k].on_width_circle {
                aw = (2 - k) as i8;
            } else if probes[k].on_height_circle {
                ah = true;
            }
            k = k + 1;
        }
        self.move_path = mv;
        self.adjust_w = aw;
        self.adjust_h = ah;
        if !mv && aw == 0 && !ah {
            let curr = self.curr_path;
            proof {
                lemma_click_selects_hit_path(
                    probes@[0].path_hits@,
                    probes@[1].path_hits@,
                    probes@[2].path_hits@,
                    curr,
                );
            }
            let f0 = found_path(&probes[0].path_hits, curr);
            let f1 = found_path(&probes[1].path_hits, curr);
            let f2 = found_path(&probes[2].path_hits, curr);
            self.curr_path = if f2.is_some() {
                f2
            } else if f1.is_some() {
                f1
            } else {
                f0
            };
        }
        self.click_armed = false;
    }

    /// The primary button is up: the next press is awaited and no handle is held.
    pub fn pointer_up(&mut self)
        requires
            old(self).wf(),
        ensures
            final(self).wf(),
            final(self).click_armed,
            !final(self).move_path,
            final(self).adjust_w == 0,
            !final(self).adjust_h,
            final(self).paths == old(self).paths,
            final(self).curr_path == old(self).curr_path,
            final(self).grid_status == old(self).grid_status,
            final(self).key_n_armed == old(self).key_n_armed,
            final(self).key_p_armed == old(self).key_p_armed,
            final(self).key_d_armed == old(self).key_d_armed,
    {
        self.click_armed = true;
        self.move_path = false;
        self.adjust_w = 0;
        self.adjust_h = false;
    }

    /// The pointer's shape while it hovers over the map.
    pub fn cursor(&self, probes: &Vec<Probe>) -> (res: CursorKind)
        ensures
            res == scan_cursor(probes@, 0, self.move_path, self.adjust_w, self.adjust_h, CursorKind::Default),
            (forall|j: int| 0 <= j < probes.len() ==> !#[trigger] cursor_decided_at(
                probes@,
                j,
                self.move_path,
                self.adjust_w,
                self.adjust_h,
            )) ==> res == CursorKind::Default,
            (exists|j: int| 0 <= j < probes.len() && #[trigger] cursor_decided_at(
                probes@,
                j,
                self.move_path,
                self.adjust_w,
                self.adjust_h,
            )) ==> res != CursorKind::Default,
            forall|j: int|
                0 <= j < probes.len() && #[trigger] cursor_decided_at(
                    probes@,
                    j,
                    self.move_path,
                    self.adjust_w,
                    self.adjust_h,
                ) && (forall|j2: int|
                    j < j2 < probes.len() ==> !cursor_decided_at(
                        probes@,
                        j2,
                        self.move_path,
                        self.adjust_w,
                        self.adjust_h,
                    )) ==> {
                    &&& (probes@[j].on_move_circle || self.move_path) ==> res == CursorKind::AllScroll
                    &&& (!(probes@[j].on_move_circle || self.move_path) && (probes@[j].on_width_circle
                        || self.adjust_w != 0)) ==> res == CursorKind::ResizeHorizontal
                    &&& (!(probes@[j].on_move_circle || self.move_path) && !(probes@[j].on_width_circle
                        || self.adjust_w != 0)) ==> res == CursorKind::ResizeVertical
                },
    {
        proof {
            lemma_cursor(probes@, 0, self.move_path, self.adjust_w, self.adjust_h, CursorKind::Default);
            if exists|j: int| 0 <= j < probes.len() && #[trigger] cursor_decided_at(
                probes@,
                j,
                self.move_path,
                self.adjust_w,
                self.adjust_h,
            ) {
                let j = choose|j: int| 0 <= j < probes.len() && #[trigger] cursor_decided_at(
                    probes@,
                    j,
                    self.move_path,
                    self.adjust_w,
                    self.adjust_h,
                );
                lemma_last_decided(probes@, j, self.move_path, self.adjust_w, self.adjust_h);
            }
        }
        let mut c = CursorKind::Default;
        let mut k: usize = 0;
        while k < probes.len()
            invariant
                k <= probes.len(),
                scan_cursor(probes@, k as int, self.move_path, self.adjust_w, self.adjust_h, c)
                    == scan_cursor(probes@, 0, self.move_path, self.adjust_w, self.adjust_h, CursorKind::Default),
            decreases probes.len() - k,
        {
            let p = &probes[k];
            if p.on_move_circle || self.move_path {
                c = CursorKind::AllScroll;
            } else if p.on_width_circle || self.adjust_w != 0 {
                c = CursorKind::ResizeHorizontal;
            } else if p.on_height_circle || self.adjust_h {
                c = CursorKind::ResizeVertical;
            }
            k = k + 1;
        }
        c
    }

    /// What dragging does to the selected path on this frame.
    pub fn drag_mode(&self) -> (res: DragMode)
        ensures
            res == drag_mode_of(self.curr_path, self.move_path, self.adjust_w, self.adjust_h),
            res == DragMode::Idle <==> (self.curr_path is None || (!self.move_path && self.adjust_w == 0
                && !self.adjust_h)),
            res == DragMode::Move <==> (self.curr_path is Some && self.move_path),
            res == DragMode::Height <==> (self.curr_path is Some && !self.move_path && self.adjust_w == 0
                && self.adjust_h),
            (self.curr_path is Some && !self.move_path && self.adjust_w != 0) ==> res == DragMode::Width(
                self.adjust_w,
            ),
    {
        proof {
            lemma_drag_mode(self.curr_path, self.move_path, self.adjust_w, self.adjust_h);
        }
        match self.curr_path {
            None => DragMode::Idle,
            Some(_) => {
                if self.move_path {
                    DragMode::Move
                } else if self.adjust_w != 0 {
                    DragMode::Width(self.adjust_w)
                } else if self.adjust_h {
                    DragMode::Height
                } else {
                    DragMode::Idle
                }
            },
        }
    }
}

/// What dragging does: nothing without a selection; else moving, then a width
/// handle, then the height handle, whichever is held first.
pub open spec fn drag_mode_of(curr: Option<usize>, mv: bool, aw: i8, ah: bool) -> DragMode {
    match curr {
        None => DragMode::Idle,
        Some(_) => if mv {
            DragMode::Move
        } else if aw != 0 {
            DragMode::Width(aw)
        } else if ah {
            DragMode::Height
        } else {
            DragMode::Idle
        },
    }
}

// ---------------------------------------------------------------------------
// Laws of handles, cursor and dragging
// ---------------------------------------------------------------------------

/// The pointer is on the selected path's width handle at offset `j`, and not
/// on its move handle there.
pub open spec fn width_grab_at(p: Seq<Probe>, j: int) -> bool {
    !p[j].on_move_circle && p[j].on_width_circle
}

/// The pointer is on the height handle at offset `j`, and on neither the move
/// nor the width handle there.
pub open spec fn height_grab_at(p: Seq<Probe>, j: int) -> bool {
    !p[j].on_move_circle && !p[j].on_width_circle && p[j].on_height_circle
}

/// Offset `j` (from `k` on) comes before any offset with the move handle
/// under the pointer, counting from `k`.
pub open spec fn before_move(p: Seq<Probe>, k: int, j: int) -> bool {
    &&& k <= j < p.len()
    &&& forall|i: int| k <= i < j ==> !(#[trigger] p[i]).on_move_circle
}

/// Grabbing handles, from offset `k` on, starting from state `(mv, aw, ah)`:
/// the move handle is held when it was or is under the pointer at some
/// offset; the height handle is held when it was, or is under the pointer at
/// an offset before any move handle; the width handle recorded is `2 - j` for
/// the last offset `j` before any move handle where it is under the pointer,
/// and stays as it was when there is none.
pub proof fn lemma_handles(p: Seq<Probe>, k: int, mv: bool, aw: i8, ah: bool)
    requires
        0 <= k <= p.len(),
    ensures
        scan_handles(p, k, mv, aw, ah).0 == (mv || exists|j: int| k <= j < p.len() && (#[trigger] p[j]).on_move_circle),
        scan_handles(p, k, mv, aw, ah).2 == (ah || exists|j: int| #[trigger] before_move(p, k, j) && height_grab_at(p, j)),
        (forall|j: int| #[trigger] before_move(p, k, j) ==> !width_grab_at(p, j)) ==> scan_handles(p, k, mv, aw, ah).1 == aw,
        forall|j: int|
            #[trigger] before_move(p, k, j) && width_grab_at(p, j) && (forall|j2: int|
                before_move(p, k, j2) && width_grab_at(p, j2) ==> j2 <= j) ==> scan_handles(p, k, mv, aw, ah).1 == (2 - j) as i8,
    decreases p.len() - k,
{
    if k < p.len() {
        if p[k].on_move_circle {
            assert forall|j: int| #[trigger] before_move(p, k, j) implies j == k by {
                if j > k {
                    assert(!p[k].on_move_circle);
                }
            }
        } else {
            let aw2: i8 = if p[k].on_width_circle { (2 - k) as i8 } else { aw };
            let ah2: bool = if !p[k].on_width_circle && p[k].on_height_circle { true } else { ah };
            lemma_handles(p, k + 1, mv, aw2, ah2);
            assert forall|j: int| before_move(p, k, j) && j > k implies #[trigger] before_move(p, k + 1, j) by {}
            assert forall|j: int| #[trigger] before_move(p, k + 1, j) implies before_move(p, k, j) by {}
            assert(before_move(p, k, k));
            if exists|j: int| k <= j < p.len() && (#[trigger] p[j]).on_move_circle {
                let j = choose|j: int| k <= j < p.len() && (#[trigger] p[j]).on_move_circle;
                assert(p[j].on_move_circle && k + 1 <= j);
            }
            if exists|j: int| #[trigger] before_move(p, k, j) && height_grab_at(p, j) {
                let j = choose|j: int| #[trigger] before_move(p, k, j) && height_grab_at(p, j);
                if j > k {
                    assert(before_move(p, k + 1, j));
                }
            }
            if exists|j: int| #[trigger] before_move(p, k + 1, j) && height_grab_at(p, j) {
                let j = choose|j: int| #[trigger] before_move(p, k + 1, j) && height_grab_at(p, j);
                assert(before_move(p, k, j));
            }
            assert forall|j: int|
                #[trigger] before_move(p, k, j) && width_grab_at(p, j) && (forall|j2: int|
                    before_move(p, k, j2) && width_grab_at(p, j2) ==> j2 <= j) implies scan_handles(p, k, mv, aw, ah).1
                == (2 - j) as i8 by {
                if j == k {
                    assert forall|j2: int| #[trigger] before_move(p, k + 1, j2) implies !width_grab_at(p, j2) by {
                        assert(before_move(p, k, j2));
                    }
                } else {
                    assert(before_move(p, k + 1, j));
                    assert forall|j2: int| before_move(p, k + 1, j2) && width_grab_at(p, j2) implies j2 <= j by {
                        assert(before_move(p, k, j2));
                    }
                }
            }
            if forall|j: int| #[trigger] before_move(p, k, j) ==> !width_grab_at(p, j) {
                assert(!width_grab_at(p, k));
                assert forall|j: int| #[trigger] before_move(p, k + 1, j) implies !width_grab_at(p, j) by {
                    assert(before_move(p, k, j));
                }
            }
        }
    }
}

/// At offset `j` the cursor is decided: a handle is under the pointer there
/// or a handle is held.
pub open spec fn cursor_decided_at(p: Seq<Probe>, j: int, mv: bool, aw: i8, ah: bool) -> bool {
    p[j].on_move_circle || mv || p[j].on_width_circle || aw != 0 || p[j].on_height_circle || ah
}

/// The cursor shape, scanning offsets from `k` with shape `c` so far: with no
/// offset decided it stays `c`; else the last decided offset sets it, to the
/// move shape when the move handle is there or held, else to the horizontal
/// resize shape when a width handle is there or held, else to the vertical one.
pub proof fn lemma_cursor(p: Seq<Probe>, k: int, mv: bool, aw: i8, ah: bool, c: CursorKind)
    requires
        0 <= k <= p.len(),
    ensures
        (forall|j: int| k <= j < p.len() ==> !#[trigger] cursor_decided_at(p, j, mv, aw, ah)) ==> scan_cursor(
            p,
            k,
            mv,
            aw,
            ah,
            c,
        ) == c,
        forall|j: int|
            k <= j < p.len() && #[trigger] cursor_decided_at(p, j, mv, aw, ah) && (forall|j2: int|
                j < j2 < p.len() ==> !cursor_decided_at(p, j2, mv, aw, ah)) ==> {
                let r = scan_cursor(p, k, mv, aw, ah, c);
                &&& (p[j].on_move_circle || mv) ==> r == CursorKind::AllScroll
                &&& (!(p[j].on_move_circle || mv) && (p[j].on_width_circle || aw != 0)) ==> r
                    == CursorKind::ResizeHorizontal
                &&& (!(p[j].on_move_circle || mv) && !(p[j].on_width_circle || aw != 0)) ==> r
                    == CursorKind::ResizeVertical
            },
    decreases p.len() - k,
{
    if k < p.len() {
        let next = if p[k].on_move_circle || mv {
            CursorKind::AllScroll
        } else if p[k].on_width_circle || aw != 0 {
            CursorKind::ResizeHorizontal
        } else if p[k].on_height_circle || ah {
            CursorKind::ResizeVertical
        } else {
            c
        };
        lemma_cursor(p, k + 1, mv, aw, ah, next);
        if forall|j: int| k <= j < p.len() ==> !#[trigger] cursor_decided_at(p, j, mv, aw, ah) {
            assert(!cursor_decided_at(p, k, mv, aw, ah));
            assert(next == c);
        }
        assert forall|j: int|
            k <= j < p.len() && #[trigger] cursor_decided_at(p, j, mv, aw, ah) && (forall|j2: int|
                j < j2 < p.len() ==> !cursor_decided_at(p, j2, mv, aw, ah)) implies {
                let r = scan_cursor(p, k, mv, aw, ah, c);
                &&& (p[j].on_move_circle || mv) ==> r == CursorKind::AllScroll
                &&& (!(p[j].on_move_circle || mv) && (p[j].on_width_circle || aw != 0)) ==> r
                    == CursorKind::ResizeHorizontal
                &&& (!(p[j].on_move_circle || mv) && !(p[j].on_width_circle || aw != 0)) ==> r
                    == CursorKind::ResizeVertical
            } by {
            if j == k {
                assert forall|j2: int| k + 1 <= j2 < p.len() implies !#[trigger] cursor_decided_at(p, j2, mv, aw, ah) by {}
            }
        }
    }
}

/// When some offset decides the cursor, a last one does.
proof fn lemma_last_decided(p: Seq<Probe>, j: int, mv: bool, aw: i8, ah: bool)
    requires
        0 <= j < p.len(),
        cursor_decided_at(p, j, mv, aw, ah),
    ensures
        exists|j1: int|
            0 <= j1 < p.len() && #[trigger] cursor_decided_at(p, j1, mv, aw, ah) && (forall|j2: int|
                j1 < j2 < p.len() ==> !cursor_decided_at(p, j2, mv, aw, ah)),
    decreases p.len() - j,
{
    if exists|j2: int| j < j2 < p.len() && #[trigger] cursor_decided_at(p, j2, mv, aw, ah) {
        let j2 = choose|j2: int| j < j2 < p.len() && #[trigger] cursor_decided_at(p, j2, mv, aw, ah);
        lemma_last_decided(p, j2, mv, aw, ah);
    } else {
        assert(cursor_decided_at(p, j, mv, aw, ah));
    }
}

/// Dragging: nothing without a selection or without a held handle; with a
/// selection, the move handle wins, then a width handle, then the height one.
pub proof fn lemma_drag_mode(curr: Option<usize>, mv: bool, aw: i8, ah: bool)
    ensures
        drag_mode_of(curr, mv, aw, ah) == DragMode::Idle <==> (curr is None || (!mv && aw == 0 && !ah)),
        drag_mode_of(curr, mv, aw, ah) == DragMode::Move <==> (curr is Some && mv),
        drag_mode_of(curr, mv, aw, ah) == DragMode::Height <==> (curr is Some && !mv && aw == 0 && ah),
        (curr is Some && !mv && aw != 0) ==> drag_mode_of(curr, mv, aw, ah) == DragMode::Width(aw),
        drag_mode_of(curr, mv, aw, ah) matches DragMode::Width(h) ==> (curr is Some && !mv && aw != 0 && h == aw),
{
}

/// What a click selects at one offset.
fn found_path(hits: &Vec<bool>, curr: Option<usize>) -> (res: Option<usize>)
    ensures
        res == found_at(hits@, curr),
        res matches Some(r) ==> r < hits.len(),
{
    let np = clicked_path(hits, curr);
    if np != curr && np.is_some() {
        np
    } else {
        None
    }
}

/// After `k` presses of `N` the selection is `k` paths further on, cyclically.
pub proof fn lemma_next_iter(c: usize, len: nat, k: nat)
    requires
        c < len <= usize::MAX,
    ensures
        next_selection_iter(Some(c), len, k) == Some(((c + k) % (len as int)) as usize),
    decreases k,
{
    if k == 0 {
        assert((c + 0) % (len as int) == c) by (nonlinear_arith)
            requires
                0 <= c < len,
        ;
    } else {
        lemma_next_iter(c, len, (k - 1) as nat);
        let m = (c + k - 1) % (len as int);
        assert(0 <= m < len) by (nonlinear_arith)
            requires
                len > 0,
                m == (c + k - 1) % (len as int),
        ;
        assert((c + k) % (len as int) == if m + 1 == len { 0 } else { m + 1 }) by (nonlinear_arith)
            requires
                len > 0,
                0 <= m < len,
                m == (c + k - 1) % (len as int),
                k > 0,
        ;
        assert(next_selection_iter(Some(c), len, (k - 1) as nat) == Some(m as usize));
    }
}

/// Pressing `N` once per path comes back to the path one started from.
pub proof fn lemma_next_cycle(c: usize, len: nat)
    requires
        c < len <= usize::MAX,
    ensures
        next_selection_iter(Some(c), len, len) == Some(c),
{
    lemma_next_iter(c, len, len);
    lemma_next_cycle_len(c, len);
}

proof fn lemma_next_cycle_len(c: usize, len: nat)
    requires
        c < len,
    ensures
        (c + len) % (len as int) == c,
{
    assert((c + len) % (len as int) == c) by (nonlinear_arith)
        requires
            0 <= c < len,
    ;
}

/// A key press fires exactly on a frame where the key is down after a frame
/// where it was up: holding a key down fires once.
pub proof fn lemma_key_press_once(down_before: bool, down_now: bool)
    ensures
        key_fires(!down_before, down_now) <==> (!down_before && down_now),
        key_fires(!true, true) == false,
{
}

/// What a click finds at one offset is a path under the pointer other than
/// the selected one; it finds nothing exactly when no such path is hit.
pub proof fn lemma_found_at(hits: Seq<bool>, curr: Option<usize>)
    requires
        hits.len() <= usize::MAX,
    ensures
        found_at(hits, curr) matches Some(r) ==> {
            &&& r < hits.len()
            &&& hits[r as int]
            &&& r as int != scan_start(curr)
        },
        found_at(hits, curr) is None <==> !some_other_hit(hits, curr),
{
    if exists|r: int| is_next_hit(hits, curr, r) {
        let r = choose|r: int| is_next_hit(hits, curr, r);
        assert(hits[r]);
        assert(some_other_hit(hits, curr));
        assert((r as usize) as int == r);
        assert(next_hit(hits, curr) == Some(r as usize));
        if let Some(c) = curr {
            assert(r != c);
        }
        assert(Some(r as usize) != curr);
        assert(found_at(hits, curr) == Some(r as usize));
    } else {
        if some_other_hit(hits, curr) {
            let j = choose|j: int| 0 <= j < hits.len() && #[trigger] hits[j] && j != scan_start(curr);
            let len = hits.len() as int;
            lemma_least_key_exists(hits, curr, j, len + len + 2);
        }
    }
}

/// Among hit paths other than the selected one, one comes first in the search.
proof fn lemma_least_key_exists(hits: Seq<bool>, curr: Option<usize>, j: int, bound: int)
    requires
        0 <= j < hits.len(),
        hits[j],
        j != scan_start(curr),
        scan_key(scan_start(curr), hits.len() as int, j) < bound,
    ensures
        exists|r: int| is_next_hit(hits, curr, r),
    decreases bound,
{
    let start = scan_start(curr);
    let len = hits.len() as int;
    if !is_next_hit(hits, curr, j) {
        let j2 = choose|j2: int|
            !(0 <= j2 < hits.len() && hits[j2] && j2 != start ==> scan_key(start, len, j)
                <= #[trigger] scan_key(start, len, j2));
        lemma_least_key_exists(hits, curr, j2, scan_key(start, len, j));
    }
}

/// A click on the map that grabs no handle selects a path under the pointer,
/// or clears the selection when no other path is under it at any offset.
pub proof fn lemma_click_selects_hit_path(h0: Seq<bool>, h1: Seq<bool>, h2: Seq<bool>, curr: Option<usize>)
    requires
        h0.len() <= usize::MAX,
        h1.len() <= usize::MAX,
        h2.len() <= usize::MAX,
    ensures
        pick_selection(found_at(h0, curr), found_at(h1, curr), found_at(h2, curr)) matches Some(r) ==> {
            &&& Some(r) != curr
            &&& (h0.len() > r && h0[r as int]) || (h1.len() > r && h1[r as int]) || (h2.len() > r && h2[r as int])
        },
        (!some_other_hit(h0, curr) && !some_other_hit(h1, curr) && !some_other_hit(h2, curr)) ==> pick_selection(
            found_at(h0, curr),
            found_at(h1, curr),
            found_at(h2, curr),
        ) is None,
{
    lemma_found_at(h0, curr);
    lemma_found_at(h1, curr);
    lemma_found_at(h2, curr);
}

} // verus!
