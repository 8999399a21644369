//! Decisions about global shortcuts: when they are switched off and on
//! again, and what a pressed shortcut or a chosen menu entry leads to.

use crate::types::CaptureMode;
use vstd::prelude::*;
use vstd::string::StringExecFns;

verus! {

/// What has to be done to the registered shortcuts.
#[derive(Clone, Copy, Debug, PartialEq, Eq, Structural)]
pub enum ShortcutCommand {
    /// Nothing.
    Keep,
    /// Unregister all shortcuts.
    UnregisterAll,
    /// Register the shortcuts of the configuration.
    Register,
}

/// Why shortcuts are switched off: while the user edits them, and while a
/// menu of the tray is open. Menus can nest, so their openings are counted.
#[derive(Clone, Copy, Debug, PartialEq, Eq, Structural)]
pub struct ShortcutPause {
    pub shortcuts_paused_for_editing: bool,
    pub shortcuts_paused_for_tray_menu: bool,
    pub menu_tracking_count: usize,
}

impl ShortcutPause {
    /// Shortcuts are meant to be registered: nothing switches them off.
    pub open spec fn enabled(self) -> bool {
        !self.shortcuts_paused_for_editing && !self.shortcuts_paused_for_tray_menu
    }

    /// Nothing switches the shortcuts off.
    pub fn new() -> (p: Self)
        ensures
            p.enabled(),
            p.menu_tracking_count == 0,
    {
        ShortcutPause {
            shortcuts_paused_for_editing: false,
            shortcuts_paused_for_tray_menu: false,
            menu_tracking_count: 0,
        }
    }

    /// The user starts to edit shortcuts: they are unregistered.
    pub open spec fn paused(self) -> (ShortcutPause, ShortcutCommand) {
        (
            ShortcutPause {
                shortcuts_paused_for_editing: true,
                shortcuts_paused_for_tray_menu: self.shortcuts_paused_for_tray_menu,
                menu_tracking_count: self.menu_tracking_count,
            },
            ShortcutCommand::UnregisterAll,
        )
    }

    /// The user is done editing shortcuts: they are registered again, unless
    /// a tray menu is open, which registers them when it closes.
    pub open spec fn resumed(self) -> (ShortcutPause, ShortcutCommand) {
        (
            ShortcutPause {
                shortcuts_paused_for_editing: false,
                shortcuts_paused_for_tray_menu: self.shortcuts_paused_for_tray_menu,
                menu_tracking_count: self.menu_tracking_count,
            },
            if self.shortcuts_paused_for_tray_menu {
                ShortcutCommand::Keep
            } else {
                ShortcutCommand::Register
            },
        )
    }

    /// A menu opens. The first open menu switches the shortcuts off; they
    /// are unregistered unless editing has done so already. The count of
    /// open menus starts again at zero when it can grow no further.
    pub open spec fn menu_opened(self) -> (ShortcutPause, ShortcutCommand) {
        let count = if self.menu_tracking_count == usize::MAX {
            0usize
        } else {
            (self.menu_tracking_count + 1) as usize
        };
        if self.menu_tracking_count != 0 {
            (
                ShortcutPause {
                    shortcuts_paused_for_editing: self.shortcuts_paused_for_editing,
                    shortcuts_paused_for_tray_menu: self.shortcuts_paused_for_tray_menu,
                    menu_tracking_count: count,
                },
                ShortcutCommand::Keep,
            )
        } else {
            (
                ShortcutPause {
                    shortcuts_paused_for_editing: self.shortcuts_paused_for_editing,
                    shortcuts_paused_for_tray_menu: true,
                    menu_tracking_count: count,
                },
                if self.shortcuts_paused_for_editing {
                    ShortcutCommand::Keep
                } else {
                    ShortcutCommand::UnregisterAll
                },
            )
        }
    }

    /// A menu closes. When the last open menu closes, the shortcuts are
    /// registered again unless they are being edited. A close without an
    /// open menu changes nothing.
    pub open spec fn menu_closed(self) -> (ShortcutPause, ShortcutCommand) {
        if self.menu_tracking_count == 0 {
            (self, ShortcutCommand::Keep)
        } else if self.menu_tracking_count != 1 {
            (
                ShortcutPause {
                    shortcuts_paused_for_editing: self.shortcuts_paused_for_editing,
                    shortcuts_paused_for_tray_menu: self.shortcuts_paused_for_tray_menu,
                    menu_tracking_count: (self.menu_tracking_count - 1) as usize,
                },
                ShortcutCommand::Keep,
            )
        } else {
            (
                ShortcutPause {
                    shortcuts_paused_for_editing: self.shortcuts_paused_for_editing,
                    shortcuts_paused_for_tray_menu: false,
                    menu_tracking_count: 0,
                },
                if self.shortcuts_paused_for_editing {
                    ShortcutCommand::Keep
                } else {
                    ShortcutCommand::Register
                },
            )
        }
    }

    /// The user starts to edit shortcuts.
    pub fn pause_shortcuts(&mut self) -> (command: ShortcutCommand)
        ensures
            (*final(self), command) == old(self).paused(),
    {
        self.shortcuts_paused_for_editing = true;
        ShortcutCommand::UnregisterAll
    }

    /// The user is done editing shortcuts.
    pub fn resume_shortcuts(&mut self) -> (command: ShortcutCommand)
        ensures
            (*final(self), command) == old(self).resumed(),
    {
        self.shortcuts_paused_for_editing = false;
        if self.shortcuts_paused_for_tray_menu {
            ShortcutCommand::Keep
        } else {
            ShortcutCommand::Register
        }
    }

    /// A menu opens.
    pub fn menu_did_begin_tracking(&mut self) -> (command: ShortcutCommand)
        ensures
            (*final(self), command) == old(self).menu_opened(),
    {
        let previous = self.menu_tracking_count;
        self.menu_tracking_count = if previous == usize::MAX {
            0
        } else {
            previous + 1
        };
        if previous != 0 {
            return ShortcutCommand::Keep;
        }
        self.shortcuts_paused_for_tray_menu = true;
        if self.shortcuts_paused_for_editing {
            ShortcutCommand::Keep
        } else {
            ShortcutCommand::UnregisterAll
        }
    }

    /// A menu closes.
    pub fn menu_did_end_tracking(&mut self) -> (command: ShortcutCommand)
        ensures
            (*final(self), command) == old(self).menu_closed(),
    {
        let current = self.menu_tracking_count;
        if current == 0 {
            return ShortcutCommand::Keep;
        }
        self.menu_tracking_count = current - 1;
        if current != 1 {
            return ShortcutCommand::Keep;
        }
        self.shortcuts_paused_for_tray_menu = false;
        if self.shortcuts_paused_for_editing {
            ShortcutCommand::Keep
        } else {
            ShortcutCommand::Register
        }
    }
}

/// A command fits the pause that it comes with: to register only where
/// nothing switches the shortcuts off afterwards, to unregister only where
/// something does, and none only where the transition has not changed
/// whether they are switched off.
pub open spec fn command_fits(
    before: ShortcutPause,
    step: (ShortcutPause, ShortcutCommand),
) -> bool {
    match step.1 {
        ShortcutCommand::Register => step.0.enabled(),
        ShortcutCommand::UnregisterAll => !step.0.enabled(),
        ShortcutCommand::Keep => step.0.enabled() == before.enabled(),
    }
}

/// The commands keep the registration in step with the pause, whichever of
/// the four transitions is taken from whichever state.
pub proof fn lemma_commands_follow_pause(before: ShortcutPause)
    ensures
        command_fits(before, before.paused()),
        command_fits(before, before.resumed()),
        command_fits(before, before.menu_opened()),
        command_fits(before, before.menu_closed()),
{
}

/// What a pressed shortcut leads to.
#[derive(Clone, Copy, Debug, PartialEq, Eq, Structural)]
pub enum ShortcutAction {
    /// Nothing happens.
    Ignore,
    /// The running recording stops.
    StopRecording,
    /// The scroll capture is cancelled and its windows are closed.
    CloseScrollCapture,
    /// The selector is closed if it is open.
    CloseSelector,
    /// The main window is shown.
    ShowMain,
    /// The selector opens for a capture of the given mode.
    OpenSelector(CaptureMode),
}

/// What a shortcut event leads to. Only presses count. While a recording
/// runs, any shortcut stops it; else, while the scroll capture's panel is
/// open, any shortcut closes it; else a stop shortcut closes the selector,
/// the shortcut for the main window shows it, and a shortcut of a capture
/// mode opens the selector for that mode.
pub open spec fn shortcut_action(
    pressed: bool,
    recording: bool,
    scroll_overlay_open: bool,
    is_stop_shortcut: bool,
    is_show_main_shortcut: bool,
    mode: Option<CaptureMode>,
) -> ShortcutAction {
    if !pressed {
        ShortcutAction::Ignore
    } else if recording {
        ShortcutAction::StopRecording
    } else if scroll_overlay_open {
        ShortcutAction::CloseScrollCapture
    } else if is_stop_shortcut {
        ShortcutAction::CloseSelector
    } else if is_show_main_shortcut {
        ShortcutAction::ShowMain
    } else {
        match mode {
            Some(m) => ShortcutAction::OpenSelector(m),
            None => ShortcutAction::Ignore,
        }
    }
}

/// Decides what a shortcut event leads to.
pub fn on_shortcut(
    pressed: bool,
    recording: bool,
    scroll_overlay_open: bool,
    is_stop_shortcut: bool,
    is_show_main_shortcut: bool,
    mode: Option<CaptureMode>,
) -> (action: ShortcutAction)
    ensures
        action == shortcut_action(
            pressed,
            recording,
            scroll_overlay_open,
            is_stop_shortcut,
            is_show_main_shortcut,
            mode,
        ),
{
    if !pressed {
        return ShortcutAction::Ignore;
    }
    if recording {
        return ShortcutAction::StopRecording;
    }
    if scroll_overlay_open {
        return ShortcutAction::CloseScrollCapture;
    }
    if is_stop_shortcut {
        return ShortcutAction::CloseSelector;
    }
    if is_show_main_shortcut {
        return ShortcutAction::ShowMain;
    }
    match mode {
        Some(m) => ShortcutAction::OpenSelector(m),
        None => ShortcutAction::Ignore,
    }
}

/// What an entry of the tray menu leads to.
#[derive(Clone, Copy, Debug, PartialEq, Eq, Structural)]
pub enum TrayAction {
    ShowMain,
    OpenSelector(CaptureMode),
    OpenSettings,
    OpenAbout,
    Quit,
    Ignore,
}

/// The action of the tray menu entry with the given identifier.
pub open spec fn tray_action(id: Seq<char>) -> TrayAction {
    if id == "show"@ {
        TrayAction::ShowMain
    } else if id == "screenshot"@ {
        TrayAction::OpenSelector(CaptureMode::Image)
    } else if id == "gif"@ {
        TrayAction::OpenSelector(CaptureMode::Gif)
    } else if id == "scroll"@ {
        TrayAction::OpenSelector(CaptureMode::Scroll)
    } else if id == "video"@ {
        TrayAction::OpenSelector(CaptureMode::Video)
    } else if id == "settings"@ {
        TrayAction::OpenSettings
    } else if id == "about"@ {
        TrayAction::OpenAbout
    } else if id == "quit"@ {
        TrayAction::Quit
    } else {
        TrayAction::Ignore
    }
}

/// Whether two texts are the same.
pub fn same_text(a: &str, b: &str) -> (same: bool)
    ensures
        same == (a@ == b@),
{
    String::from_str(a) == String::from_str(b)
}

/// Decides what an entry of the tray menu leads to.
pub fn on_tray_menu(id: &str) -> (action: TrayAction)
    ensures
        action == tray_action(id@),
{
    if same_text(id, "show") {
        TrayAction::ShowMain
    } else if same_text(id, "screenshot") {
        TrayAction::OpenSelector(CaptureMode::Image)
    } else if same_text(id, "gif") {
        TrayAction::OpenSelector(CaptureMode::Gif)
    } else if same_text(id, "scroll") {
        TrayAction::OpenSelector(CaptureMode::Scroll)
    } else if same_text(id, "video") {
        TrayAction::OpenSelector(CaptureMode::Video)
    } else if same_text(id, "settings") {
        TrayAction::OpenSettings
    } else if same_text(id, "about") {
        TrayAction::OpenAbout
    } else if same_text(id, "quit") {
        TrayAction::Quit
    } else {
        TrayAction::Ignore
    }
}

/// The tooltip of the tray icon.
pub fn tray_tooltip(is_recording: bool) -> (text: &'static str)
    ensures
        text@ == if is_recording {
            "Lovshot - Recording... (Option+A to stop)"@
        } else {
            "Lovshot - Option+A to capture"@
        },
{
    if is_recording {
        "Lovshot - Recording... (Option+A to stop)"
    } else {
        "Lovshot - Option+A to capture"
    }
}

} // verus!
