//! Assembly of the application state and the services over it.
use vstd::prelude::*;

use crate::app_state::{default_group_name, AppState};
use crate::saved::SavedItemView;
use crate::clipboard_service::ClipboardService;
use crate::settings::{SettingsService, SettingsState};

verus! {

/// The application's state: clipboard history and saved items, and the hotkey settings.
pub struct StateContext {
    pub app_state: AppState,
    pub settings_state: SettingsState,
}

impl StateContext {
    /// The initial state: an empty history with only the default group, and default settings.
    pub fn new() -> (c: Self)
        ensures
            c.app_state.inv(),
            c.app_state@.history.len() == 0,
            c.app_state@.used.is_empty(),
            c.app_state@.last_clipboard is None,
            c.app_state@.pending_paste is None,
            c.app_state@.selected_index == 0,
            c.app_state@.groups == seq![(default_group_name(), Seq::<SavedItemView>::empty())],
            c.app_state@.active_group == default_group_name(),
            c.settings_state.hotkey_mode == 0,
            c.settings_state.hotkey_combo_ctrl_required,
            !c.settings_state.hotkey_combo_shift_required,
            c.settings_state.hotkey_combo_key@ == seq!['H'],
    {
        StateContext { app_state: AppState::new(), settings_state: SettingsState::default() }
    }
}

/// The services, each owning its part of the state.
pub struct ServiceContext {
    pub clipboard_service: ClipboardService,
    pub settings_service: SettingsService,
}

impl ServiceContext {
    /// Hands each part of `state_context` to the service over it.
    pub fn new(state_context: StateContext) -> (s: Self)
        requires
            state_context.app_state.inv(),
        ensures
            s.clipboard_service.inv(),
            s.clipboard_service.state() == state_context.app_state@,
            s.settings_service.state() == state_context.settings_state,
    {
        let StateContext { app_state, settings_state } = state_context;
        ServiceContext {
            clipboard_service: ClipboardService::new(app_state),
            settings_service: SettingsService::new(settings_state),
        }
    }
}

/// Builds the application's services in one place.
pub struct CompositionRoot;

impl CompositionRoot {
    /// The services over the initial state.
    pub fn build() -> (s: ServiceContext)
        ensures
            s.clipboard_service.inv(),
            s.clipboard_service.state().history.len() == 0,
            s.clipboard_service.state().used.is_empty(),
            s.clipboard_service.state().last_clipboard is None,
            s.clipboard_service.state().groups == seq![(default_group_name(), Seq::<SavedItemView>::empty())],
            s.clipboard_service.state().active_group == default_group_name(),
            s.clipboard_service.state().selected_index == 0,
            s.clipboard_service.state().pending_paste is None,
            s.settings_service.state().hotkey_mode == 0,
            s.settings_service.state().hotkey_combo_ctrl_required,
            !s.settings_service.state().hotkey_combo_shift_required,
            s.settings_service.state().hotkey_combo_key@ == seq!['H'],
    {
        ServiceContext::new(StateContext::new())
    }
}

} // verus!
