//! The host-binding surface: a stateful session over the catalog with a
//! record tab and a clip tab, an undo slot for the last deletion, and a
//! choice of raster mode.
//!
//! The host owns the audio streams and the packet coder; this state makes
//! the decisions. Where an operation needs coded packets (saving a
//! recording, undoing a deletion) or a decoded clip (selecting one), the
//! host hands them in.

use vstd::prelude::*;
use crate::ErrorKind;
use crate::clip::AudioClip;
use crate::db::{id_as_i64, list_contract, name_conflict, saved_row, Db, ClipMeta};
use crate::spectrum::{hop_end, hop_start, raster_byte_of, spectro_frames};
use crate::waveform::{raster_byte, waveform_columns};

verus! {

/// Which raster the clip tab shows.
#[derive(Clone, Copy, Debug, PartialEq, Eq, Structural)]
pub enum RenderMode {
    Waveform,
    Spectrogram,
}

/// The session's focus: the record tab (possibly mid-capture) or one
/// clip (possibly playing).
pub enum Tab {
    Record { recording: bool },
    Clip { clip: AudioClip, playing: bool },
}

/// A host session over the catalog.
pub struct UiState {
    pub tab: Tab,
    pub db: Db,
    pub deleted_clip: Option<AudioClip>,
    pub render_mode: RenderMode,
}

impl UiState {
    /// The session is over a migrated catalog.
    pub open spec fn wf(&self) -> bool {
        self.db.wf()
    }

    /// Opens a session on the record tab.
    pub fn new(db: Db) -> (r: UiState)
        requires
            db.wf(),
        ensures
            r.wf(),
            r.tab matches Tab::Record { recording } && !recording,
            r.deleted_clip is None,
            r.render_mode == RenderMode::Waveform,
            r.db.rows() == db.rows(),
    {
        UiState {
            tab: Tab::Record { recording: false },
            db,
            deleted_clip: None,
            render_mode: RenderMode::Waveform,
        }
    }

    /// The catalog's listing.
    pub fn get_clips(&self) -> (r: Result<Vec<ClipMeta>, ErrorKind>)
        requires
            self.wf(),
        ensures
            list_contract(self.db.rows(), r),
    {
        self.db.list()
    }

    /// Draws the selected clip over its whole sample range onto a
    /// `width * height` RGBA canvas, in the session's chosen raster mode;
    /// the record tab has no clip to draw.
    pub fn draw_current_clip(&self, width: usize, height: usize) -> (r: Option<
        Result<Vec<u8>, ErrorKind>,
    >)
        requires
            width <= 0xFFFF,
            height <= 0xFFFF,
            width * height <= 0x3FF_FFFF,
            self.tab matches Tab::Clip { clip, .. } ==> clip.sample_rate > 0
                && clip.samples@.len() <= 0xFFFF_FFFF && crate::clip::resampled_len(
                clip.samples@.len() as int,
                clip.sample_rate as int,
                12000,
            ) <= 0xFFFF_FFFF && (clip.samples@.len() as int) * 12000 / (clip.sample_rate as int)
                <= 0xFFFF_FFFF,
        ensures
            match self.tab {
                Tab::Record { .. } => r is None,
                Tab::Clip { clip, .. } => r matches Some(Ok(buf)) && buf@.len() == width * height
                    * 4 && (self.render_mode == RenderMode::Waveform ==> forall|i: int|
                    0 <= i < buf@.len() ==> #[trigger] buf@[i] == raster_byte(
                        waveform_columns(
                            clip.samples@,
                            0,
                            clip.samples@.len() as int,
                            width as int,
                        ),
                        height as int,
                        i,
                    )) && (self.render_mode == RenderMode::Spectrogram ==> forall|i: int|
                    0 <= i < buf@.len() ==> #[trigger] buf@[i] == raster_byte_of(
                        spectro_frames(
                            crate::clip::resampled_seq(
                                clip.samples@,
                                clip.sample_rate as int,
                                12000,
                            ),
                            hop_start(0),
                            hop_end(clip.samples@.len() as int, clip.sample_rate as int),
                        ),
                        width as int,
                        height as int,
                        i,
                    )),
            },
    {
        match &self.tab {
            Tab::Record { .. } => None,
            Tab::Clip { clip, .. } => {
                let n = clip.num_samples();
                match self.render_mode {
                    RenderMode::Waveform => Some(
                        Ok(clip.render_waveform_raster((0, n), width, height)),
                    ),
                    RenderMode::Spectrogram => Some(clip.render_spectrogram((0, n), width, height)),
                }
            },
        }
    }

    /// The selected clip's id, if a saved clip is selected.
    pub fn get_current_clip_id(&self) -> (r: Option<usize>)
        ensures
            match self.tab {
                Tab::Record { .. } => r is None,
                Tab::Clip { clip, .. } => r == clip.id,
            },
    {
        match &self.tab {
            Tab::Record { .. } => None,
            Tab::Clip { clip, .. } => clip.id,
        }
    }

    /// Whether the record tab is selected.
    pub fn get_record_tab_selected(&self) -> (r: bool)
        ensures
            r == (self.tab is Record),
    {
        matches!(self.tab, Tab::Record { .. })
    }

    /// Whether a stream (capture or playback) is live.
    pub fn get_streaming(&self) -> (r: bool)
        ensures
            match self.tab {
                Tab::Record { recording } => r == recording,
                Tab::Clip { playing, .. } => r == playing,
            },
    {
        match &self.tab {
            Tab::Record { recording } => *recording,
            Tab::Clip { playing, .. } => *playing,
        }
    }

    /// Chooses the raster the clip tab shows.
    pub fn set_render_mode(&mut self, render_mode: RenderMode)
        ensures
            final(self).render_mode == render_mode,
            final(self).tab == old(self).tab,
            final(self).db == old(self).db,
            final(self).deleted_clip == old(self).deleted_clip,
    {
        self.render_mode = render_mode;
    }

    /// Switches to the record tab, dropping any selection.
    pub fn set_current_tab_record(&mut self)
        ensures
            final(self).tab matches Tab::Record { recording } && !recording,
            final(self).db == old(self).db,
            final(self).deleted_clip == old(self).deleted_clip,
            final(self).render_mode == old(self).render_mode,
    {
        self.tab = Tab::Record { recording: false };
    }

    /// Selects a clip the host loaded from the catalog.
    pub fn set_current_clip(&mut self, clip: AudioClip)
        requires
            clip.id is Some,
        ensures
            final(self).tab matches Tab::Clip { clip: c, playing } && crate::clip::clip_eq(
                &c,
                &clip,
            ) && !playing,
            final(self).db == old(self).db,
            final(self).deleted_clip == old(self).deleted_clip,
            final(self).render_mode == old(self).render_mode,
    {
        self.tab = Tab::Clip { clip, playing: false };
    }

    /// Begins a capture: only meaningful on an idle record tab; reports
    /// whether the host should open the input stream.
    pub fn begin_record(&mut self) -> (started: bool)
        ensures
            started == (old(self).tab matches Tab::Record { recording } && !recording),
            started ==> (final(self).tab matches Tab::Record { recording } && recording),
            !started ==> final(self).tab == old(self).tab,
            final(self).db == old(self).db,
            final(self).deleted_clip == old(self).deleted_clip,
            final(self).render_mode == old(self).render_mode,
    {
        match &self.tab {
            Tab::Record { recording } => {
                if *recording {
                    false
                } else {
                    self.tab = Tab::Record { recording: true };
                    true
                }
            },
            Tab::Clip { .. } => false,
        }
    }

    /// Begins playback of the selected clip; reports whether the host
    /// should open the output stream.
    pub fn begin_play(&mut self) -> (started: bool)
        ensures
            started == (old(self).tab is Clip),
            started ==> (final(self).tab matches Tab::Clip { clip, playing } && playing
                && (old(self).tab matches Tab::Clip { clip: c0, .. } && clip == c0)),
            !started ==> final(self).tab == old(self).tab,
            final(self).db == old(self).db,
            final(self).deleted_clip == old(self).deleted_clip,
            final(self).render_mode == old(self).render_mode,
    {
        let mut tab = Tab::Record { recording: false };
        core::mem::swap(&mut tab, &mut self.tab);
        match tab {
            Tab::Clip { clip, playing: _ } => {
                self.tab = Tab::Clip { clip, playing: true };
                true
            },
            other => {
                self.tab = other;
                false
            },
        }
    }

    /// Ends a capture: saves the finished clip (with the packets the host
    /// coded for it) and selects it.
    pub fn stop_recording(
        &mut self,
        clip: AudioClip,
        rate: u32,
        num_samples: u32,
        packets: &Vec<Vec<u8>>,
    ) -> (r: Result<(), ErrorKind>)
        requires
            old(self).wf(),
            clip.id is None,
        ensures
            final(self).wf(),
            match r {
                Ok(_) => {
                    &&& final(self).tab matches Tab::Clip { clip: c, playing } && !playing
                        && c.id is Some && c.name@ == clip.name@ && c.samples@ == clip.samples@
                    &&& !name_conflict(old(self).db.rows(), clip.name@, id_as_i64(clip.id))
                    &&& (exists|k: int|
                        !old(self).db.rows().dom().contains(k) && final(self).db.rows()
                            == #[trigger] old(self).db.rows().insert(
                            k,
                            saved_row(clip.name@, clip.date@, rate, num_samples, packets@),
                        ))
                },
                Err(e) => e == ErrorKind::Internal || final(self).db.rows() == old(
                    self,
                ).db.rows(),
            },
    {
        let mut clip = clip;
        match self.db.save(&mut clip, rate, num_samples, packets) {
            Ok(_) => {
                self.tab = Tab::Clip { clip, playing: false };
                Ok(())
            },
            Err(e) => Err(e),
        }
    }

    /// Ends playback, keeping the selection.
    pub fn stop_playback(&mut self)
        ensures
            old(self).tab matches Tab::Clip { clip, .. } ==> (final(self).tab matches Tab::Clip {
                clip: c,
                playing,
            } && c == clip && !playing),
            old(self).tab is Record ==> final(self).tab == old(self).tab,
            final(self).db == old(self).db,
            final(self).deleted_clip == old(self).deleted_clip,
            final(self).render_mode == old(self).render_mode,
    {
        let mut tab = Tab::Record { recording: false };
        core::mem::swap(&mut tab, &mut self.tab);
        match tab {
            Tab::Clip { clip, playing: _ } => {
                self.tab = Tab::Clip { clip, playing: false };
            },
            other => {
                self.tab = other;
            },
        }
    }

    /// Deletes the selected clip from the catalog, keeping it in the undo
    /// slot with its identity cleared.
    pub fn delete_current_clip(&mut self) -> (r: Result<(), ErrorKind>)
        requires
            old(self).wf(),
        ensures
            final(self).wf(),
            match r {
                Ok(_) => {
                    &&& (old(self).tab matches Tab::Clip { clip, .. } && (clip.id matches Some(id)
                        && final(self).db.rows() == old(self).db.rows().remove(id as int))
                        && (final(self).deleted_clip matches Some(d) && d.id is None && d.name@
                        == clip.name@ && d.samples@ == clip.samples@))
                    &&& (final(self).tab matches Tab::Record { recording } && !recording)
                },
                Err(ErrorKind::InvalidArgument) => {
                    &&& (old(self).tab is Record || (old(self).tab matches Tab::Clip {
                        clip,
                        ..
                    } && clip.id is None))
                    &&& final(self).db.rows() == old(self).db.rows()
                },
                Err(ErrorKind::Io) => final(self).db.rows() == old(self).db.rows(),
                _ => false,
            },
    {
        let mut tab = Tab::Record { recording: false };
        core::mem::swap(&mut tab, &mut self.tab);
        match tab {
            Tab::Clip { clip, playing: _ } => {
                match clip.id {
                    Some(id) => {
                        if (id as u64) > 0x7FFF_FFFF_FFFF_FFFFu64 {
                            self.tab = Tab::Clip { clip, playing: false };
                            return Err(ErrorKind::Io);
                        }
                        match self.db.delete_by_id(id) {
                            Ok(_) => {
                                let mut deleted = clip;
                                deleted.id = None;
                                self.deleted_clip = Some(deleted);
                                Ok(())
                            },
                            Err(e) => {
                                self.tab = Tab::Clip { clip, playing: false };
                                Err(e)
                            },
                        }
                    },
                    None => {
                        self.tab = Tab::Clip { clip, playing: false };
                        Err(ErrorKind::InvalidArgument)
                    },
                }
            },
            other => {
                self.tab = other;
                Err(ErrorKind::InvalidArgument)
            },
        }
    }

    /// Saves the last deleted clip back (under a fresh id, with the
    /// packets the host coded) and selects it.
    pub fn undelete_current_clip(
        &mut self,
        rate: u32,
        num_samples: u32,
        packets: &Vec<Vec<u8>>,
    ) -> (r: Result<(), ErrorKind>)
        requires
            old(self).wf(),
        ensures
            final(self).wf(),
            match r {
                Ok(_) => {
                    &&& old(self).deleted_clip matches Some(d)
                    &&& final(self).deleted_clip is None
                    &&& final(self).tab matches Tab::Clip { clip: c, playing } && !playing
                        && c.id is Some
                },
                Err(ErrorKind::InvalidArgument) => old(self).deleted_clip is None && final(self).db.rows() == old(self).db.rows(),
                Err(e) => e == ErrorKind::Internal || final(self).db.rows() == old(
                    self,
                ).db.rows(),
            },
    {
        match self.deleted_clip.take() {
            None => Err(ErrorKind::InvalidArgument),
            Some(clip) => {
                let mut clip = clip;
                if clip.id.is_some() {
                    self.deleted_clip = Some(clip);
                    return Err(ErrorKind::Internal);
                }
                match self.db.save(&mut clip, rate, num_samples, packets) {
                    Ok(_) => {
                        self.tab = Tab::Clip { clip, playing: false };
                        Ok(())
                    },
                    Err(e) => {
                        self.deleted_clip = Some(clip);
                        Err(e)
                    },
                }
            },
        }
    }

    /// Renames the selected clip, in the catalog and in the tab.
    pub fn rename_current_clip(&mut self, new_name: String) -> (r: Result<(), ErrorKind>)
        requires
            old(self).wf(),
        ensures
            final(self).wf(),
            match r {
                Ok(_) => {
                    &&& old(self).tab matches Tab::Clip { clip, .. } && clip.id matches Some(id)
                        && old(self).db.rows().dom().contains(id as int) && final(self).db.rows() == old(self).db.rows().insert(
                        id as int,
                        (
                            new_name@,
                            old(self).db.rows()[id as int].1,
                            old(self).db.rows()[id as int].2,
                            old(self).db.rows()[id as int].3,
                        ),
                    )
                    &&& final(self).tab matches Tab::Clip { clip: c, .. } && c.name@ == new_name@
                },
                Err(ErrorKind::InvalidArgument) => {
                    &&& (old(self).tab is Record || (old(self).tab matches Tab::Clip {
                        clip,
                        ..
                    } && clip.id is None))
                    &&& final(self).db.rows() == old(self).db.rows()
                },
                Err(ErrorKind::NotFound) => final(self).db.rows() == old(self).db.rows(),
                Err(ErrorKind::Conflict) => final(self).db.rows() == old(self).db.rows(),
                Err(ErrorKind::Io) => final(self).db.rows() == old(self).db.rows(),
                _ => false,
            },
    {
        let mut tab = Tab::Record { recording: false };
        core::mem::swap(&mut tab, &mut self.tab);
        match tab {
            Tab::Clip { clip, playing } => {
                match clip.id {
                    Some(id) => {
                        if (id as u64) > 0x7FFF_FFFF_FFFF_FFFFu64 {
                            self.tab = Tab::Clip { clip, playing };
                            return Err(ErrorKind::Io);
                        }
                        match self.db.rename_by_id(id, &new_name) {
                            Ok(_) => {
                                let mut clip = clip;
                                clip.name = new_name;
                                self.tab = Tab::Clip { clip, playing };
                                Ok(())
                            },
                            Err(e) => {
                                self.tab = Tab::Clip { clip, playing };
                                Err(e)
                            },
                        }
                    },
                    None => {
                        self.tab = Tab::Clip { clip, playing };
                        Err(ErrorKind::InvalidArgument)
                    },
                }
            },
            other => {
                self.tab = other;
                Err(ErrorKind::InvalidArgument)
            },
        }
    }
}

} // verus!
