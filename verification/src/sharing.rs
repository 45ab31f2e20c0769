//! What the connections, the clipboard server and the clipboard watcher share,
//! and what the watcher makes of a change.

use vstd::prelude::*;

use crate::clipboard::MAX_SMALL_PATH_SIZE;
use crate::mwb_protocol::ID_ALL;
use crate::paths;
use crate::picture;
use crate::picture::Picture;

verus! {

pub open spec fn text_of(s: Option<String>) -> Option<Seq<char>> {
    match s {
        Some(s) => Some(s@),
        None => None,
    }
}

pub open spec fn bytes_of(b: Option<Vec<u8>>) -> Option<Seq<u8>> {
    match b {
        Some(b) => Some(b@),
        None => None,
    }
}

pub open spec fn picture_of(p: Option<Picture>) -> Option<(usize, usize, Seq<u8>)> {
    match p {
        Some(p) => Some(p@),
        None => None,
    }
}

fn is_text(s: &Option<String>, t: &String) -> (r: bool)
    ensures
        r == (text_of(*s) == Some(t@)),
{
    match s {
        Some(s) => *s == *t,
        None => false,
    }
}

fn is_bytes(s: &Option<Vec<u8>>, t: &Vec<u8>) -> (r: bool)
    ensures
        r == (bytes_of(*s) == Some(t@)),
{
    match s {
        Some(s) => picture::same_bytes(s.as_slice(), t.as_slice()),
        None => false,
    }
}

fn is_picture(s: &Option<Picture>, t: &Picture) -> (r: bool)
    ensures
        r == (picture_of(*s) == Some(t@)),
{
    match s {
        Some(s) => picture::same_picture(s, t),
        None => false,
    }
}

/// A file that waits for the peer to pull it: one of the user's, served under
/// its own name, or an image that was stored for the purpose.
pub enum PendingOutbound {
    File(String),
    Image(String),
}

/// The path of what is pending, and whether it is an image.
impl View for PendingOutbound {
    type V = (Seq<char>, bool);

    open spec fn view(&self) -> (Seq<char>, bool) {
        match self {
            PendingOutbound::File(path) => (path@, false),
            PendingOutbound::Image(path) => (path@, true),
        }
    }
}

pub open spec fn pending_of(p: Option<PendingOutbound>) -> Option<(Seq<char>, bool)> {
    match p {
        Some(p) => Some(p@),
        None => None,
    }
}

/// What was last taken over from the peer, what waits for it, and its id.
pub ghost struct SharedModel {
    pub text: Option<Seq<char>>,
    pub file_uri: Option<Seq<char>>,
    pub image: Option<Seq<u8>>,
    pub picture: Option<(usize, usize, Seq<u8>)>,
    pub pending: Option<(Seq<char>, bool)>,
    pub peer: Option<u32>,
}

/// The state that the connections and the watcher share.
pub struct ClipboardShared {
    last_applied_text: Option<String>,
    last_applied_file_uri: Option<String>,
    last_applied_image: Option<Vec<u8>>,
    last_applied_image_rgba: Option<Picture>,
    pending_outbound: Option<PendingOutbound>,
    peer_machine_id: Option<u32>,
}

impl View for ClipboardShared {
    type V = SharedModel;

    closed spec fn view(&self) -> SharedModel {
        SharedModel {
            text: text_of(self.last_applied_text),
            file_uri: text_of(self.last_applied_file_uri),
            image: bytes_of(self.last_applied_image),
            picture: picture_of(self.last_applied_image_rgba),
            pending: pending_of(self.pending_outbound),
            peer: self.peer_machine_id,
        }
    }
}

/// Nothing has been shared yet.
pub open spec fn nothing_shared() -> SharedModel {
    SharedModel { text: None, file_uri: None, image: None, picture: None, pending: None, peer: None }
}

/// A real machine id: neither none nor everyone.
pub open spec fn is_machine_id(id: u32) -> bool {
    id != 0 && id != ID_ALL
}

/// The peer that is remembered behind a package from `src`.
pub open spec fn peer_noted(peer: Option<u32>, src: u32) -> Option<u32> {
    if is_machine_id(src) {
        Some(src)
    } else {
        peer
    }
}

/// The peer that is remembered is always a machine: neither none nor everyone.
pub proof fn noted_peer_is_a_machine(peer: Option<u32>, src: u32)
    requires
        peer is Some ==> is_machine_id(peer->0),
    ensures
        peer_noted(peer, src) is Some ==> is_machine_id(peer_noted(peer, src)->0),
{
}

impl ClipboardShared {
    pub fn new() -> (r: Self)
        ensures
            r@ == nothing_shared(),
    {
        ClipboardShared {
            last_applied_text: None,
            last_applied_file_uri: None,
            last_applied_image: None,
            last_applied_image_rgba: None,
            pending_outbound: None,
            peer_machine_id: None,
        }
    }

    /// Remembers who sent a package, so that it can be addressed later.
    pub fn note_peer_machine_id(&mut self, src_id: u32)
        ensures
            final(self)@ == (SharedModel {
                peer: peer_noted(old(self)@.peer, src_id),
                ..old(self)@
            }),
    {
        if src_id != 0 && src_id != ID_ALL {
            self.peer_machine_id = Some(src_id);
        }
    }

    /// Remembers the text that was put on the clipboard for the peer.
    pub fn note_applied_text(&mut self, text: String)
        ensures
            final(self)@ == (SharedModel { text: Some(text@), ..old(self)@ }),
    {
        self.last_applied_text = Some(text);
    }

    /// Remembers the URI of the file that was put on the clipboard for the
    /// peer.
    pub fn note_applied_file(&mut self, uri: String)
        ensures
            final(self)@ == (SharedModel { file_uri: Some(uri@), ..old(self)@ }),
    {
        self.last_applied_file_uri = Some(uri);
    }

    /// Remembers the PNG file that was put on the clipboard for the peer.
    pub fn note_applied_image(&mut self, png: Vec<u8>)
        ensures
            final(self)@ == (SharedModel { image: Some(png@), ..old(self)@ }),
    {
        self.last_applied_image = Some(png);
    }

    /// Remembers the pixels that were put on the clipboard for the peer. Two
    /// PNG files of the same pixels need not be the same: where the clipboard
    /// gives pixels, pixels are compared.
    pub fn note_applied_picture(&mut self, picture: Picture)
        ensures
            final(self)@ == (SharedModel { picture: Some(picture@), ..old(self)@ }),
    {
        self.last_applied_image_rgba = Some(picture);
    }

    /// Has a file wait for the peer in the place of any other.
    pub fn set_pending(&mut self, pending: PendingOutbound)
        ensures
            final(self)@ == (SharedModel { pending: Some(pending@), ..old(self)@ }),
    {
        self.pending_outbound = Some(pending);
    }

    /// The file that waits for the peer.
    pub fn pending(&self) -> (r: Option<PendingOutbound>)
        ensures
            pending_of(r) == self@.pending,
    {
        match &self.pending_outbound {
            Some(PendingOutbound::File(path)) => Some(PendingOutbound::File(path.clone())),
            Some(PendingOutbound::Image(path)) => Some(PendingOutbound::Image(path.clone())),
            None => None,
        }
    }
}

impl Default for ClipboardShared {
    fn default() -> (r: Self)
        ensures
            r@ == nothing_shared(),
    {
        ClipboardShared::new()
    }
}

/// The path of the image that waits for the peer.
pub fn pending_outbound_image(shared: &ClipboardShared) -> (r: Option<String>)
    ensures
        text_of(r) == (match shared@.pending {
            Some((path, true)) => Some(path),
            _ => None,
        }),
{
    match &shared.pending_outbound {
        Some(PendingOutbound::Image(path)) => Some(path.clone()),
        _ => None,
    }
}

/// The id of the peer, once it is known.
pub fn peer_machine_id(shared: &ClipboardShared) -> (r: Option<u32>)
    ensures
        r == shared@.peer,
{
    shared.peer_machine_id
}

/// A change of the clipboard that is to go to the peer.
pub enum ClipboardEvent {
    Text(String),
    File(String),
    /// A PNG file that is small enough to be pushed.
    Image(Vec<u8>),
    /// The path of a PNG file that is to be pulled.
    BigImage(String),
}

pub ghost enum EventModel {
    Text(Seq<char>),
    File(Seq<char>),
    Image(Seq<u8>),
    BigImage(Seq<char>),
}

impl View for ClipboardEvent {
    type V = EventModel;

    open spec fn view(&self) -> EventModel {
        match self {
            ClipboardEvent::Text(text) => EventModel::Text(text@),
            ClipboardEvent::File(path) => EventModel::File(path@),
            ClipboardEvent::Image(png) => EventModel::Image(png@),
            ClipboardEvent::BigImage(path) => EventModel::BigImage(path@),
        }
    }
}

/// The last of some changes.
pub open spec fn latest(events: Seq<ClipboardEvent>) -> Option<ClipboardEvent> {
    if events.len() == 0 {
        None
    } else {
        Some(events.last())
    }
}

/// However many changes came before it, the one that came last counts.
pub proof fn the_last_change_counts(events: Seq<ClipboardEvent>, event: ClipboardEvent)
    ensures
        latest(events.push(event)) == Some(event),
        latest(Seq::empty()) is None,
{
}

/// Of changes that came in quick succession, only the last one counts.
pub fn latest_event(events: Vec<ClipboardEvent>) -> (r: Option<ClipboardEvent>)
    ensures
        r == latest(events@),
        r == (if events@.len() == 0 {
            None
        } else {
            Some(events@.last())
        }),
{
    let mut events = events;
    events.pop()
}

/// What is to be done about the clipboard.
pub enum WatchAction {
    Nothing,
    Send(ClipboardEvent),
    /// An image is too big to be pushed: it is stored, and the peer is told to
    /// pull it.
    StoreImage(Vec<u8>),
}

pub ghost enum WatchModel {
    Nothing,
    Send(EventModel),
    StoreImage(Seq<u8>),
}

impl View for WatchAction {
    type V = WatchModel;

    open spec fn view(&self) -> WatchModel {
        match self {
            WatchAction::Nothing => WatchModel::Nothing,
            WatchAction::Send(event) => WatchModel::Send(event@),
            WatchAction::StoreImage(png) => WatchModel::StoreImage(png@),
        }
    }
}

/// What becomes of a PNG file that is to go to the peer.
pub open spec fn image_action(png: Seq<u8>) -> WatchModel {
    if png.len() < MAX_SMALL_PATH_SIZE {
        WatchModel::Send(EventModel::Image(png))
    } else {
        WatchModel::StoreImage(png)
    }
}

/// Pushes a small image and stores a big one.
pub fn route_image(png: Vec<u8>) -> (r: WatchAction)
    ensures
        r@ == image_action(png@),
{
    if png.len() < MAX_SMALL_PATH_SIZE {
        WatchAction::Send(ClipboardEvent::Image(png))
    } else {
        WatchAction::StoreImage(png)
    }
}

/// What the watcher last saw on the clipboard.
pub ghost struct WatcherModel {
    pub file: Option<Seq<char>>,
    pub image: Option<Seq<u8>>,
    pub picture: Option<(usize, usize, Seq<u8>)>,
    pub text: Option<Seq<char>>,
}

/// A file goes to the peer if it is new and did not come from there.
pub open spec fn file_seen(before: WatcherModel, shared: SharedModel, path: Seq<char>) -> (
    WatcherModel,
    WatchModel,
) {
    if before.file is Some && paths::same_path(before.file->0, path) {
        (before, WatchModel::Nothing)
    } else {
        (
            WatcherModel { file: Some(path), ..before },
            if shared.file_uri != Some(paths::uri_of(path)) {
                WatchModel::Send(EventModel::File(path))
            } else {
                WatchModel::Nothing
            },
        )
    }
}

/// An image goes to the peer if it is new and did not come from there.
pub open spec fn image_seen(before: WatcherModel, shared: SharedModel, png: Seq<u8>) -> (
    WatcherModel,
    WatchModel,
) {
    (
        WatcherModel { image: Some(png), ..before },
        if before.image != Some(png) && shared.image != Some(png) {
            image_action(png)
        } else {
            WatchModel::Nothing
        },
    )
}

/// A picture is to be encoded if it is new and did not come from the peer.
pub open spec fn picture_is_fresh(
    before: WatcherModel,
    shared: SharedModel,
    picture: (usize, usize, Seq<u8>),
) -> bool {
    before.picture != Some(picture) && shared.picture != Some(picture)
}

/// A picture goes to the peer, as a PNG file, if it is new and did not come
/// from there. One that cannot be encoded is passed over.
pub open spec fn picture_seen(
    before: WatcherModel,
    shared: SharedModel,
    picture: (usize, usize, Seq<u8>),
    png: Option<Seq<u8>>,
) -> (WatcherModel, WatchModel) {
    (
        WatcherModel { picture: Some(picture), ..before },
        if picture_is_fresh(before, shared, picture) && png is Some {
            image_action(png->0)
        } else {
            WatchModel::Nothing
        },
    )
}

/// A text goes to the peer if it is new and did not come from there.
pub open spec fn text_seen(before: WatcherModel, shared: SharedModel, text: Seq<char>) -> (
    WatcherModel,
    WatchModel,
) {
    (
        WatcherModel { text: Some(text), ..before },
        if before.text != Some(text) && shared.text != Some(text) {
            WatchModel::Send(EventModel::Text(text))
        } else {
            WatchModel::Nothing
        },
    )
}

/// One look at the clipboard: a file goes before an image, an image before
/// text.
pub open spec fn clipboard_seen(
    before: WatcherModel,
    shared: SharedModel,
    file: Option<Seq<char>>,
    image: Option<Seq<u8>>,
    text: Option<Seq<char>>,
) -> (WatcherModel, WatchModel) {
    if file is Some {
        file_seen(before, shared, file->0)
    } else if image is Some {
        image_seen(before, shared, image->0)
    } else if text is Some {
        text_seen(before, shared, text->0)
    } else {
        (before, WatchModel::Nothing)
    }
}

/// One look at a clipboard that gives pixels: a picture goes before text.
pub open spec fn pasteboard_seen(
    before: WatcherModel,
    shared: SharedModel,
    picture: Option<(usize, usize, Seq<u8>)>,
    text: Option<Seq<char>>,
) -> (WatcherModel, WatchModel) {
    if picture is Some {
        let p = picture->0;
        picture_seen(before, shared, p, picture::encoded_png(p.0, p.1, p.2))
    } else if text is Some {
        text_seen(before, shared, text->0)
    } else {
        (before, WatchModel::Nothing)
    }
}

/// What came from the peer is never sent back to it, whatever the watcher has
/// seen before.
pub proof fn echo_is_never_sent(
    before: WatcherModel,
    shared: SharedModel,
    file: Seq<char>,
    image: Seq<u8>,
    picture: (usize, usize, Seq<u8>),
    png: Option<Seq<u8>>,
    text: Seq<char>,
)
    ensures
        shared.file_uri == Some(paths::uri_of(file)) ==> file_seen(before, shared, file).1
            == WatchModel::Nothing,
        shared.image == Some(image) ==> image_seen(before, shared, image).1 == WatchModel::Nothing,
        shared.picture == Some(picture) ==> picture_seen(before, shared, picture, png).1
            == WatchModel::Nothing,
        shared.text == Some(text) ==> text_seen(before, shared, text).1 == WatchModel::Nothing,
{
}

/// A file that came from the peer and was put on the clipboard does not bounce
/// back, with or without a line end behind its URI.
pub proof fn received_file_does_not_bounce(
    before: WatcherModel,
    shared: SharedModel,
    path: Seq<char>,
    image: Option<Seq<u8>>,
    text: Option<Seq<char>>,
)
    requires
        shared.file_uri == Some(paths::uri_of(path)),
    ensures
        clipboard_seen(before, shared, paths::first_file(paths::uri_of(path)), image, text).1
            == WatchModel::Nothing,
        clipboard_seen(
            before,
            shared,
            paths::first_file(paths::uri_of(path) + seq!['\n']),
            image,
            text,
        ).1 == WatchModel::Nothing,
{
    paths::file_uri_is_read_back(path);
}

/// What is already there when the watcher starts is not sent, and what was
/// seen is sent once: a second look at the same clipboard does nothing.
pub proof fn unchanged_clipboard_is_silent(
    before: WatcherModel,
    shared: SharedModel,
    later: SharedModel,
    file: Option<Seq<char>>,
    image: Option<Seq<u8>>,
    picture: Option<(usize, usize, Seq<u8>)>,
    text: Option<Seq<char>>,
)
    ensures
        clipboard_seen(
            WatcherModel { file, image, picture: None, text },
            shared,
            file,
            image,
            text,
        ).1 == WatchModel::Nothing,
        clipboard_seen(
            clipboard_seen(before, shared, file, image, text).0,
            later,
            file,
            image,
            text,
        ).1 == WatchModel::Nothing,
        pasteboard_seen(
            WatcherModel { file: None, image: None, picture, text },
            shared,
            picture,
            text,
        ).1 == WatchModel::Nothing,
        pasteboard_seen(
            pasteboard_seen(before, shared, picture, text).0,
            later,
            picture,
            text,
        ).1 == WatchModel::Nothing,
{
}

/// Watches the clipboard for changes that are to go to the peer.
pub struct ClipboardWatcher {
    last_seen_file: Option<String>,
    last_seen_image: Option<Vec<u8>>,
    last_seen_picture: Option<Picture>,
    last_seen_text: Option<String>,
}

impl View for ClipboardWatcher {
    type V = WatcherModel;

    closed spec fn view(&self) -> WatcherModel {
        WatcherModel {
            file: text_of(self.last_seen_file),
            image: bytes_of(self.last_seen_image),
            picture: picture_of(self.last_seen_picture),
            text: text_of(self.last_seen_text),
        }
    }
}

impl ClipboardWatcher {
    /// A watcher that takes what is there for seen.
    pub fn new(
        file: Option<String>,
        image: Option<Vec<u8>>,
        picture: Option<Picture>,
        text: Option<String>,
    ) -> (r: Self)
        ensures
            r@ == (WatcherModel {
                file: text_of(file),
                image: bytes_of(image),
                picture: picture_of(picture),
                text: text_of(text),
            }),
    {
        ClipboardWatcher {
            last_seen_file: file,
            last_seen_image: image,
            last_seen_picture: picture,
            last_seen_text: text,
        }
    }

    fn see_file(&mut self, shared: &ClipboardShared, path: String) -> (r: WatchAction)
        ensures
            (final(self)@, r@) == file_seen(old(self)@, shared@, path@),
    {
        let seen: bool = match &self.last_seen_file {
            Some(last) => paths::is_same_path(last.as_str(), path.as_str()),
            None => false,
        };
        if seen {
            return WatchAction::Nothing;
        }
        self.last_seen_file = Some(path.clone());
        let uri: String = paths::file_uri(path.as_str());
        if is_text(&shared.last_applied_file_uri, &uri) {
            WatchAction::Nothing
        } else {
            WatchAction::Send(ClipboardEvent::File(path))
        }
    }

    fn see_image(&mut self, shared: &ClipboardShared, png: Vec<u8>) -> (r: WatchAction)
        ensures
            (final(self)@, r@) == image_seen(old(self)@, shared@, png@),
    {
        if is_bytes(&self.last_seen_image, &png) {
            return WatchAction::Nothing;
        }
        self.last_seen_image = Some(vstd::slice::slice_to_vec(png.as_slice()));
        if is_bytes(&shared.last_applied_image, &png) {
            WatchAction::Nothing
        } else {
            route_image(png)
        }
    }

    fn see_picture(&mut self, shared: &ClipboardShared, seen: Picture) -> (r: WatchAction)
        requires
            picture_is_fresh(old(self)@, shared@, seen@) ==> picture::is_whole(seen@),
        ensures
            (final(self)@, r@) == picture_seen(
                old(self)@,
                shared@,
                seen@,
                picture::encoded_png(seen.width, seen.height, seen.bytes@),
            ),
    {
        if is_picture(&self.last_seen_picture, &seen) {
            return WatchAction::Nothing;
        }
        self.last_seen_picture = Some(seen.duplicate());
        if is_picture(&shared.last_applied_image_rgba, &seen) {
            WatchAction::Nothing
        } else {
            match picture::encode_png(seen.width, seen.height, seen.bytes.as_slice()) {
                Some(png) => route_image(png),
                None => WatchAction::Nothing,
            }
        }
    }

    fn see_text(&mut self, shared: &ClipboardShared, text: String) -> (r: WatchAction)
        ensures
            (final(self)@, r@) == text_seen(old(self)@, shared@, text@),
    {
        if is_text(&self.last_seen_text, &text) {
            return WatchAction::Nothing;
        }
        self.last_seen_text = Some(text.clone());
        if is_text(&shared.last_applied_text, &text) {
            WatchAction::Nothing
        } else {
            WatchAction::Send(ClipboardEvent::Text(text))
        }
    }

    /// Takes one look at a clipboard that may hold a file, an image or text.
    /// Nothing behind the first that is there is looked at.
    pub fn look(
        &mut self,
        shared: &ClipboardShared,
        file: Option<String>,
        image: Option<Vec<u8>>,
        text: Option<String>,
    ) -> (r: WatchAction)
        ensures
            (final(self)@, r@) == clipboard_seen(
                old(self)@,
                shared@,
                text_of(file),
                bytes_of(image),
                text_of(text),
            ),
    {
        match file {
            Some(path) => self.see_file(shared, path),
            None => match image {
                Some(png) => self.see_image(shared, png),
                None => match text {
                    Some(text) => self.see_text(shared, text),
                    None => WatchAction::Nothing,
                },
            },
        }
    }

    /// Whether a picture would be encoded for the peer. Then it has to be
    /// whole.
    pub fn is_fresh_picture(&self, shared: &ClipboardShared, seen: &Picture) -> (r: bool)
        ensures
            r == picture_is_fresh(self@, shared@, seen@),
    {
        !is_picture(&self.last_seen_picture, seen) && !is_picture(
            &shared.last_applied_image_rgba,
            seen,
        )
    }

    /// Takes one look at a clipboard that may hold a picture or text. A
    /// picture that is to be sent has to be whole.
    pub fn look_at_pasteboard(
        &mut self,
        shared: &ClipboardShared,
        picture: Option<Picture>,
        text: Option<String>,
    ) -> (r: WatchAction)
        requires
            picture is Some && picture_is_fresh(old(self)@, shared@, picture->0@)
                ==> picture::is_whole(picture->0@),
        ensures
            (final(self)@, r@) == pasteboard_seen(
                old(self)@,
                shared@,
                picture_of(picture),
                text_of(text),
            ),
    {
        match picture {
            Some(picture) => self.see_picture(shared, picture),
            None => match text {
                Some(text) => self.see_text(shared, text),
                None => WatchAction::Nothing,
            },
        }
    }
}

/// A text that was neither seen last nor taken from the peer last is sent as
/// it is, whatever else was seen or taken.
pub proof fn new_text_is_sent(before: WatcherModel, shared: SharedModel, text: Seq<char>)
    requires
        before.text is None || before.text->0 != text,
        shared.text is None || shared.text->0 != text,
    ensures
        clipboard_seen(before, shared, None, None, Some(text)).1 == WatchModel::Send(
            EventModel::Text(text),
        ),
        pasteboard_seen(before, shared, None, Some(text)).1 == WatchModel::Send(
            EventModel::Text(text),
        ),
{
}

/// A file that is not another spelling of the one seen last, and whose URI was
/// not taken from the peer last, is sent, whatever else the clipboard holds.
pub proof fn new_files_are_sent(
    before: WatcherModel,
    shared: SharedModel,
    path: Seq<char>,
    image: Option<Seq<u8>>,
    text: Option<Seq<char>>,
)
    requires
        before.file is None || !paths::same_path(before.file->0, path),
        shared.file_uri is None || shared.file_uri->0 != paths::uri_of(path),
    ensures
        clipboard_seen(before, shared, Some(path), image, text).1 == WatchModel::Send(
            EventModel::File(path),
        ),
{
}

/// An image that was neither seen last nor taken from the peer last goes to the
/// peer, where there is no file, whatever text comes with it: below one
/// mebibyte it is sent, from there on it is stored to be pulled.
pub proof fn new_images_are_sent(
    before: WatcherModel,
    shared: SharedModel,
    png: Seq<u8>,
    text: Option<Seq<char>>,
)
    requires
        before.image is None || before.image->0 != png,
        shared.image is None || shared.image->0 != png,
    ensures
        clipboard_seen(before, shared, None, Some(png), text).1 == if png.len() < 1_048_576 {
            WatchModel::Send(EventModel::Image(png))
        } else {
            WatchModel::StoreImage(png)
        },
{
}

/// A picture that was neither seen last nor taken from the peer last goes to
/// the peer as the PNG file that it is encoded as, by the same measure, and
/// does not where it cannot be encoded.
pub proof fn new_pictures_are_sent(
    before: WatcherModel,
    shared: SharedModel,
    width: usize,
    height: usize,
    rgba: Seq<u8>,
    text: Option<Seq<char>>,
)
    requires
        before.picture is None || before.picture->0 != (width, height, rgba),
        shared.picture is None || shared.picture->0 != (width, height, rgba),
    ensures
        picture_is_fresh(before, shared, (width, height, rgba)),
        pasteboard_seen(before, shared, Some((width, height, rgba)), text).1 == (
        match picture::encoded_png(width, height, rgba) {
            Some(png) => if png.len() < 1_048_576 {
                WatchModel::Send(EventModel::Image(png))
            } else {
                WatchModel::StoreImage(png)
            },
            None => WatchModel::Nothing,
        }),
{
}

/// A look remembers what it looked at and nothing else: what stands behind a
/// file, or behind an image, is not seen.
pub proof fn looks_remember_what_they_see(
    before: WatcherModel,
    shared: SharedModel,
    file: Option<Seq<char>>,
    image: Option<Seq<u8>>,
    picture: Option<(usize, usize, Seq<u8>)>,
    text: Option<Seq<char>>,
)
    ensures
        ({
            let seen = clipboard_seen(before, shared, file, image, text).0;
            &&& seen.picture == before.picture
            &&& file is Some ==> seen.file is Some && (seen.file == file || paths::same_path(
                seen.file->0,
                file->0,
            )) && seen.image == before.image && seen.text == before.text
            &&& file is None ==> seen.file == before.file
            &&& file is None && image is Some ==> seen.image == image && seen.text == before.text
            &&& file is None && image is None ==> seen.image == before.image && seen.text == (
            if text is Some {
                text
            } else {
                before.text
            })
        }),
        ({
            let seen = pasteboard_seen(before, shared, picture, text).0;
            &&& seen.file == before.file && seen.image == before.image
            &&& picture is Some ==> seen.picture == picture && seen.text == before.text
            &&& picture is None ==> seen.picture == before.picture && seen.text == (
            if text is Some {
                text
            } else {
                before.text
            })
        }),
        clipboard_seen(before, shared, None, None, None).1 == WatchModel::Nothing,
        pasteboard_seen(before, shared, None, None).1 == WatchModel::Nothing,
{
}

/// Whoever sends a package is remembered, but for no machine and for all of
/// them: those leave what was remembered.
pub proof fn last_sender_is_remembered(peer: Option<u32>, src: u32)
    ensures
        src != 0 && src != 255 ==> peer_noted(peer, src) == Some(src),
        src == 0 || src == 255 ==> peer_noted(peer, src) == peer,
{
}

/// What was seen last, and what was taken from the peer last, is not sent,
/// whatever else was seen or taken.
pub proof fn what_is_known_is_not_sent(
    before: WatcherModel,
    shared: SharedModel,
    path: Seq<char>,
    png: Seq<u8>,
    pixels: (usize, usize, Seq<u8>),
    image: Option<Seq<u8>>,
    text: Option<Seq<char>>,
    copied: Seq<char>,
)
    ensures
        before.text == Some(copied) || shared.text == Some(copied) ==> clipboard_seen(
            before,
            shared,
            None,
            None,
            Some(copied),
        ).1 == WatchModel::Nothing && pasteboard_seen(before, shared, None, Some(copied)).1
            == WatchModel::Nothing,
        before.image == Some(png) || shared.image == Some(png) ==> clipboard_seen(
            before,
            shared,
            None,
            Some(png),
            text,
        ).1 == WatchModel::Nothing,
        before.picture == Some(pixels) || shared.picture == Some(pixels) ==> pasteboard_seen(
            before,
            shared,
            Some(pixels),
            text,
        ).1 == WatchModel::Nothing && !picture_is_fresh(before, shared, pixels),
        before.file == Some(path) || shared.file_uri == Some(paths::uri_of(path))
            ==> clipboard_seen(before, shared, Some(path), image, text).1 == WatchModel::Nothing,
{
}

} // verus!
