//! The two map views as explicit state machines: each holds what its fetches
//! have delivered so far, an update function records one delivered result,
//! and a step function decides what to render next. The asynchronous fetches
//! themselves happen outside; only their results flow back in.
use crate::cache::FetchError;
use crate::directory::Maps;
use vstd::prelude::*;

verus! {

/// Shape of a generated map.
#[derive(Clone, Copy, PartialEq, Eq, Structural, Debug)]
pub enum MapKind {
    Square,
    Circle,
}

/// Generation parameters of one map. The two fractional parameters are
/// carried as their binary32 bit patterns: the viewer only displays them.
#[derive(Clone, Copy, PartialEq, Eq, Structural, Debug)]
pub struct GenOpts {
    pub x_lg: u8,
    pub y_lg: u8,
    pub scale_bits: u32,
    pub map_kind: MapKind,
    pub erosion_quality_bits: u32,
}

/// One map's decoded configuration payload, fetched per detail view and not
/// cached across views.
#[derive(Clone, Copy, PartialEq, Eq, Structural, Debug)]
pub struct MapData {
    pub seed: u32,
    pub gen_opts: GenOpts,
}

/// What the gallery should render.
#[derive(Clone, Copy, PartialEq, Eq, Structural, Debug)]
pub enum GalleryView {
    /// No directory yet: start a fetch and show the loading state.
    FetchDirectory,
    /// The directory fetch failed: show its message.
    DirectoryFailed,
    /// Show one thumbnail per directory entry, in ascending seed order.
    Entries,
}

/// The gallery view: renders the whole directory as a grid of links.
pub struct VelorenMaps {
    pub maps: Option<Result<Maps, FetchError>>,
}

impl VelorenMaps {
    /// A freshly mounted gallery has no directory yet.
    pub fn create() -> (r: VelorenMaps)
        ensures
            r.maps is None,
    {
        VelorenMaps { maps: None }
    }

    /// Records the result of the directory fetch; the view is redrawn.
    pub fn update(&mut self, msg: Result<Maps, FetchError>) -> (redraw: bool)
        ensures
            redraw,
            final(self).maps == Some(msg),
    {
        self.maps = Some(msg);
        true
    }

    pub open spec fn spec_view(&self) -> GalleryView {
        match self.maps {
            None => GalleryView::FetchDirectory,
            Some(Err(_)) => GalleryView::DirectoryFailed,
            Some(Ok(_)) => GalleryView::Entries,
        }
    }

    /// Decides what the gallery renders in its current state.
    pub fn view_step(&self) -> (r: GalleryView)
        ensures
            r == self.spec_view(),
    {
        match &self.maps {
            None => GalleryView::FetchDirectory,
            Some(Err(_)) => GalleryView::DirectoryFailed,
            Some(Ok(_)) => GalleryView::Entries,
        }
    }

    /// The resolved directory, when the fetch succeeded.
    pub fn directory(&self) -> (r: Option<&Maps>)
        ensures
            match r {
                Some(m) => self.maps == Some(Result::<Maps, FetchError>::Ok(*m)),
                None => !(self.maps matches Some(Ok(_))),
            },
    {
        match &self.maps {
            Some(Ok(m)) => Some(m),
            _ => None,
        }
    }
}

/// What the detail view should render.
#[derive(Clone, Copy, PartialEq, Eq, Structural, Debug)]
pub enum DetailView {
    /// No directory yet: start a directory fetch and show the loading state.
    FetchDirectory,
    /// The directory fetch failed: show its message.
    DirectoryFailed,
    /// The directory resolved but holds no entry for this seed: show the
    /// "map doesn't exist" message with a link back to the gallery.
    NotFound,
    /// The entry exists but its configuration has not arrived: start a
    /// configuration fetch and show the image with a loading state.
    FetchConfig,
    /// The configuration fetch or decode failed: show the image with the
    /// failure message.
    ConfigFailed,
    /// Show the image and the decoded configuration.
    Ready,
}

/// A message delivered to the detail view by one of its two fetches.
pub enum Message {
    Maps(Result<Maps, FetchError>),
    Data(Result<MapData, FetchError>),
}

/// The detail view's route parameter: the seed it displays.
#[derive(PartialEq, Eq, Structural, Clone, Copy, Debug)]
pub struct MapProperties {
    pub seed: u32,
}

/// The per-seed detail view: directory lookup, then configuration fetch.
pub struct VelorenMap {
    pub maps: Option<Result<Maps, FetchError>>,
    pub data: Option<Result<MapData, FetchError>>,
}

impl VelorenMap {
    /// A freshly mounted detail view has fetched nothing yet.
    pub fn create() -> (r: VelorenMap)
        ensures
            r.maps is None,
            r.data is None,
    {
        VelorenMap { maps: None, data: None }
    }

    /// Records one delivered fetch result, leaving the other step's state
    /// alone; the view is redrawn either way.
    pub fn update(&mut self, msg: Message) -> (redraw: bool)
        ensures
            redraw,
            msg matches Message::Maps(m) ==> final(self).maps == Some(m) && final(self).data
                == old(self).data,
            msg matches Message::Data(d) ==> final(self).data == Some(d) && final(self).maps
                == old(self).maps,
    {
        match msg {
            Message::Maps(m) => self.maps = Some(m),
            Message::Data(d) => self.data = Some(d),
        }
        true
    }

    pub open spec fn spec_view(&self, seed: u32) -> DetailView {
        match self.maps {
            None => DetailView::FetchDirectory,
            Some(Err(_)) => DetailView::DirectoryFailed,
            Some(Ok(m)) => if !m.contains_seed(seed) {
                DetailView::NotFound
            } else {
                match self.data {
                    None => DetailView::FetchConfig,
                    Some(Err(_)) => DetailView::ConfigFailed,
                    Some(Ok(_)) => DetailView::Ready,
                }
            },
        }
    }

    /// Decides what the detail view renders for its seed in its current
    /// state.
    pub fn view_step(&self, props: &MapProperties) -> (r: DetailView)
        ensures
            r == self.spec_view(props.seed),
    {
        match &self.maps {
            None => DetailView::FetchDirectory,
            Some(Err(_)) => DetailView::DirectoryFailed,
            Some(Ok(m)) => match m.find(props.seed) {
                None => DetailView::NotFound,
                Some(_) => match &self.data {
                    None => DetailView::FetchConfig,
                    Some(Err(_)) => DetailView::ConfigFailed,
                    Some(Ok(_)) => DetailView::Ready,
                },
            },
        }
    }

    /// The resolved directory, when the directory fetch succeeded.
    pub fn directory(&self) -> (r: Option<&Maps>)
        ensures
            match r {
                Some(m) => self.maps == Some(Result::<Maps, FetchError>::Ok(*m)),
                None => !(self.maps matches Some(Ok(_))),
            },
    {
        match &self.maps {
            Some(Ok(m)) => Some(m),
            _ => None,
        }
    }
}

/// Law: once the gallery's directory fetch has delivered — success or
/// failure recorded alike — rendering never starts another directory fetch;
/// only the fresh state does.
pub proof fn lemma_gallery_refetches_only_when_unset(v: VelorenMaps)
    ensures
        v.spec_view() == GalleryView::FetchDirectory <==> v.maps is None,
{
}

/// Law: the detail view starts a directory fetch exactly when no directory
/// result has been delivered yet.
pub proof fn lemma_detail_refetches_only_when_unset(v: VelorenMap, seed: u32)
    ensures
        v.spec_view(seed) == DetailView::FetchDirectory <==> v.maps is None,
{
}

/// Law: requesting a detail view for a seed the resolved directory does not
/// hold renders the "not found" state — never a failure state.
pub proof fn lemma_absent_seed_not_found(s: VelorenMap, seed: u32)
    requires
        s.maps matches Some(Ok(m)) && !m.contains_seed(seed),
    ensures
        s.spec_view(seed) == DetailView::NotFound,
{
}

} // verus!
