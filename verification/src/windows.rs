//! The desktop windows: which surfaces exist, how each is dressed, what the native menu
//! holds and does, and which pages the sign-in window may visit.
use vstd::prelude::*;

use crate::metadata::{ParsedUrl, UrlParts};
use crate::text::str_equal;

verus! {

/// A window of the application.
#[derive(Clone, Copy, Debug, PartialEq, Eq, Structural)]
pub enum WindowSurface {
    Library,
    Artwork,
    Queue,
    Mini,
    Settings,
    Import,
}

/// How a window is made: its label, title and route, and its chrome. Its size is chosen
/// where it is built.
#[derive(Debug)]
pub struct WindowChrome {
    pub kind: WindowSurface,
    pub label: String,
    pub title: String,
    pub route: String,
    pub decorations: bool,
    pub transparent: bool,
    pub resizable: bool,
    pub overlay_titlebar: bool,
    pub hidden_title: bool,
}

/// The mathematical value of a window's chrome.
pub struct WindowChromeView {
    pub kind: WindowSurface,
    pub label: Seq<char>,
    pub title: Seq<char>,
    pub route: Seq<char>,
    pub decorations: bool,
    pub transparent: bool,
    pub resizable: bool,
    pub overlay_titlebar: bool,
    pub hidden_title: bool,
}

impl View for WindowChrome {
    type V = WindowChromeView;

    open spec fn view(&self) -> WindowChromeView {
        WindowChromeView {
            kind: self.kind,
            label: self.label@,
            title: self.title@,
            route: self.route@,
            decorations: self.decorations,
            transparent: self.transparent,
            resizable: self.resizable,
            overlay_titlebar: self.overlay_titlebar,
            hidden_title: self.hidden_title,
        }
    }
}

/// One row of the window table: every window is transparent; the mini player alone has
/// no decorations and cannot be resized.
pub open spec fn chrome(
    kind: WindowSurface,
    label: Seq<char>,
    title: Seq<char>,
    route: Seq<char>,
    decorations: bool,
    resizable: bool,
    overlay: bool,
) -> WindowChromeView {
    WindowChromeView {
        kind,
        label,
        title,
        route,
        decorations,
        transparent: true,
        resizable,
        overlay_titlebar: overlay,
        hidden_title: overlay,
    }
}

/// The windows of the application, in menu order.
pub open spec fn surfaces() -> Seq<WindowChromeView> {
    seq![
        chrome(WindowSurface::Library, "main"@, "G Music"@, ""@, true, true, true),
        chrome(WindowSurface::Artwork, "artwork"@, "Artwork"@, "?view=artwork"@, true, true, true),
        chrome(WindowSurface::Queue, "queue"@, "Play Queue"@, "?view=queue"@, true, true, true),
        chrome(
            WindowSurface::Mini,
            "mini-player"@,
            "G Music Mini Player"@,
            "?view=mini"@,
            false,
            false,
            false,
        ),
        chrome(
            WindowSurface::Settings,
            "settings"@,
            "Settings"@,
            "?view=settings"@,
            true,
            true,
            false,
        ),
        chrome(
            WindowSurface::Import,
            "import"@,
            "Import Music"@,
            "?view=import"@,
            true,
            true,
            true,
        ),
    ]
}

fn make_chrome(
    kind: WindowSurface,
    label: &str,
    title: &str,
    route: &str,
    decorations: bool,
    resizable: bool,
    overlay: bool,
) -> (res: WindowChrome)
    ensures
        res@ == chrome(kind, label@, title@, route@, decorations, resizable, overlay),
{
    WindowChrome {
        kind,
        label: String::from_str(label),
        title: String::from_str(title),
        route: String::from_str(route),
        decorations,
        transparent: true,
        resizable,
        overlay_titlebar: overlay,
        hidden_title: overlay,
    }
}

/// The window table (see `surfaces`).
pub fn all_surfaces() -> (res: Vec<WindowChrome>)
    ensures
        res@.map_values(|w: WindowChrome| w@) == surfaces(),
{
    let mut v: Vec<WindowChrome> = Vec::new();
    v.push(make_chrome(WindowSurface::Library, "main", "G Music", "", true, true, true));
    v.push(make_chrome(WindowSurface::Artwork, "artwork", "Artwork", "?view=artwork", true, true, true));
    v.push(make_chrome(WindowSurface::Queue, "queue", "Play Queue", "?view=queue", true, true, true));
    v.push(
        make_chrome(
            WindowSurface::Mini,
            "mini-player",
            "G Music Mini Player",
            "?view=mini",
            false,
            false,
            false,
        ),
    );
    v.push(
        make_chrome(
            WindowSurface::Settings,
            "settings",
            "Settings",
            "?view=settings",
            true,
            true,
            false,
        ),
    );
    v.push(
        make_chrome(WindowSurface::Import, "import", "Import Music", "?view=import", true, true, true),
    );
    assert(v@.map_values(|w: WindowChrome| w@) =~= surfaces());
    v
}

/// The titles of the native menu's sections, in order.
pub fn menu_titles() -> (res: [&'static str; 7])
    ensures
        res@.map_values(|t: &str| t@) == seq![
            "G Music"@,
            "File"@,
            "Edit"@,
            "Playback"@,
            "View"@,
            "Window"@,
            "Help"@,
        ],
{
    let titles = ["G Music", "File", "Edit", "Playback", "View", "Window", "Help"];
    assert(titles@.map_values(|t: &str| t@) =~= seq![
        "G Music"@,
        "File"@,
        "Edit"@,
        "Playback"@,
        "View"@,
        "Window"@,
        "Help"@,
    ]);
    titles
}

/// What a native menu item does.
#[derive(Clone, Copy, Debug, PartialEq, Eq, Structural)]
pub enum MenuCommand {
    Show(WindowSurface),
    ShowKeyboardShortcuts,
    TogglePlayback,
    PreviousTrack,
    NextTrack,
    Ignore,
}

/// The command of a menu item by its ID; items the application does not handle are
/// ignored.
pub open spec fn menu_command_of(id: Seq<char>) -> MenuCommand {
    if id == "window.library"@ {
        MenuCommand::Show(WindowSurface::Library)
    } else if id == "window.artwork"@ {
        MenuCommand::Show(WindowSurface::Artwork)
    } else if id == "window.queue"@ {
        MenuCommand::Show(WindowSurface::Queue)
    } else if id == "window.mini"@ {
        MenuCommand::Show(WindowSurface::Mini)
    } else if id == "window.settings"@ {
        MenuCommand::Show(WindowSurface::Settings)
    } else if id == "window.import"@ {
        MenuCommand::Show(WindowSurface::Import)
    } else if id == "help.keyboard-shortcuts"@ {
        MenuCommand::ShowKeyboardShortcuts
    } else if id == "playback.toggle"@ {
        MenuCommand::TogglePlayback
    } else if id == "playback.previous"@ {
        MenuCommand::PreviousTrack
    } else if id == "playback.next"@ {
        MenuCommand::NextTrack
    } else {
        MenuCommand::Ignore
    }
}

/// The command of a menu item (see `menu_command_of`).
pub fn menu_command(item_id: &str) -> (res: MenuCommand)
    ensures
        res == menu_command_of(item_id@),
{
    if str_equal(item_id, "window.library") {
        MenuCommand::Show(WindowSurface::Library)
    } else if str_equal(item_id, "window.artwork") {
        MenuCommand::Show(WindowSurface::Artwork)
    } else if str_equal(item_id, "window.queue") {
        MenuCommand::Show(WindowSurface::Queue)
    } else if str_equal(item_id, "window.mini") {
        MenuCommand::Show(WindowSurface::Mini)
    } else if str_equal(item_id, "window.settings") {
        MenuCommand::Show(WindowSurface::Settings)
    } else if str_equal(item_id, "window.import") {
        MenuCommand::Show(WindowSurface::Import)
    } else if str_equal(item_id, "help.keyboard-shortcuts") {
        MenuCommand::ShowKeyboardShortcuts
    } else if str_equal(item_id, "playback.toggle") {
        MenuCommand::TogglePlayback
    } else if str_equal(item_id, "playback.previous") {
        MenuCommand::PreviousTrack
    } else if str_equal(item_id, "playback.next") {
        MenuCommand::NextTrack
    } else {
        MenuCommand::Ignore
    }
}

/// The windows whose pages may run application commands: those of the window table.
pub open spec fn trusted_label(label: Seq<char>) -> bool {
    ||| label == "main"@
    ||| label == "artwork"@
    ||| label == "queue"@
    ||| label == "mini-player"@
    ||| label == "settings"@
    ||| label == "import"@
}

/// Whether a window may run application commands; the sign-in window may not.
pub fn trusted_command_window(label: &str) -> (r: bool)
    ensures
        r == trusted_label(label@),
{
    str_equal(label, "main") || str_equal(label, "artwork") || str_equal(label, "queue")
        || str_equal(label, "mini-player") || str_equal(label, "settings") || str_equal(
        label,
        "import",
    )
}

/// `host` is `domain` or one of its subdomains.
pub open spec fn within_domain(host: Seq<char>, domain: Seq<char>) -> bool {
    host == domain || (host.len() > domain.len() && host.subrange(
        host.len() - domain.len() - 1,
        host.len() as int,
    ) == seq!['.'] + domain)
}

/// The sign-in window stays on HTTPS pages of Google and YouTube.
pub open spec fn auth_navigation_allowed(u: UrlParts) -> bool {
    &&& u.scheme == "https"@
    &&& u.host matches Some(h) && (within_domain(h, "google.com"@) || within_domain(
        h,
        "youtube.com"@,
    ))
}

fn within_domain_exec(host: &str, domain: &str) -> (r: bool)
    ensures
        r == within_domain(host@, domain@),
{
    if str_equal(host, domain) {
        return true;
    }
    let h = crate::text::chars_of(host);
    let d = crate::text::chars_of(domain);
    if h.len() <= d.len() {
        return false;
    }
    let start = h.len() - d.len() - 1;
    let ghost target = seq!['.'] + d@;
    if h[start] != '.' {
        assert(h@.subrange(start as int, h@.len() as int)[0] != target[0]);
        return false;
    }
    let mut k: usize = 0;
    while k < d.len()
        invariant
            k <= d@.len(),
            h@ == host@,
            d@ == domain@,
            host@ != domain@,
            h@.len() > d@.len(),
            h@.len() == h.len(),
            d@.len() == d.len(),
            start == h@.len() - d@.len() - 1,
            h@[start as int] == '.',
            target == seq!['.'] + d@,
            forall|q: int| 0 <= q < k ==> h@[start + 1 + q] == d@[q],
        decreases d@.len() - k,
    {
        if h[start + 1 + k] != d[k] {
            assert(h@.subrange(start as int, h@.len() as int)[k + 1] != target[k + 1]);
            return false;
        }
        k = k + 1;
    }
    assert(h@.subrange(start as int, h@.len() as int) =~= target);
    true
}

/// Whether the sign-in window may open a page (see `auth_navigation_allowed`).
pub fn is_youtube_auth_navigation(url: &ParsedUrl) -> (r: bool)
    ensures
        r == auth_navigation_allowed(url@),
{
    if !str_equal(url.scheme.as_str(), "https") {
        return false;
    }
    match &url.host {
        Some(h) => within_domain_exec(h.as_str(), "google.com") || within_domain_exec(
            h.as_str(),
            "youtube.com",
        ),
        None => false,
    }
}

} // verus!
