//! The welcome dialog of the studio: its steps, and what a new project
//! holds.
use vstd::prelude::*;

verus! {

/// The step the welcome dialog shows.
#[derive(Clone, Copy, Debug, PartialEq, Eq, Structural)]
pub enum OnboardingState {
    TemplateSelection,
    BasicInfo,
    Login,
    Inactive,
}

/// The template a new project starts from.
#[derive(Clone, Copy, Debug, PartialEq, Eq, Structural)]
pub enum SelectedTemplate {
    Empty,
    Baseplate,
}

/// What the user did in the dialog, or outside it.
#[derive(Clone, Copy, Debug, PartialEq, Eq, Structural)]
pub enum OnboardingEvent {
    /// Picked a template on the first step.
    ChooseTemplate(SelectedTemplate),
    /// Pressed "Create!" on the project details step.
    Create,
    /// Chose to go on without logging in.
    SkipLogin,
    /// Started a new document: the dialog opens again.
    NewDocument,
}

/// Where the dialog goes on an event: the next step, the template now
/// chosen, and whether a project is to be created from that template.
#[derive(Clone, Copy, Debug, PartialEq, Eq, Structural)]
pub struct OnboardingStep {
    pub state: OnboardingState,
    pub template: SelectedTemplate,
    pub create_project: bool,
}

/// The next step of the dialog. An event that does not belong to the step
/// shown changes nothing.
pub open spec fn next_step(
    state: OnboardingState,
    template: SelectedTemplate,
    event: OnboardingEvent,
) -> OnboardingStep {
    match event {
        OnboardingEvent::ChooseTemplate(t) => if state == OnboardingState::TemplateSelection {
            OnboardingStep { state: OnboardingState::BasicInfo, template: t, create_project: false }
        } else {
            OnboardingStep { state, template, create_project: false }
        },
        OnboardingEvent::Create => if state == OnboardingState::BasicInfo {
            OnboardingStep { state: OnboardingState::Login, template, create_project: true }
        } else {
            OnboardingStep { state, template, create_project: false }
        },
        OnboardingEvent::SkipLogin => if state == OnboardingState::Login {
            OnboardingStep { state: OnboardingState::Inactive, template, create_project: false }
        } else {
            OnboardingStep { state, template, create_project: false }
        },
        OnboardingEvent::NewDocument => OnboardingStep {
            state: OnboardingState::TemplateSelection,
            template,
            create_project: false,
        },
    }
}

/// Moves the welcome dialog on by one event.
pub fn onboarding_step(state: OnboardingState, template: SelectedTemplate, event: OnboardingEvent) -> (r:
    OnboardingStep)
    ensures
        r == next_step(state, template, event),
{
    match event {
        OnboardingEvent::ChooseTemplate(t) => {
            if state == OnboardingState::TemplateSelection {
                OnboardingStep { state: OnboardingState::BasicInfo, template: t, create_project: false }
            } else {
                OnboardingStep { state, template, create_project: false }
            }
        },
        OnboardingEvent::Create => {
            if state == OnboardingState::BasicInfo {
                OnboardingStep { state: OnboardingState::Login, template, create_project: true }
            } else {
                OnboardingStep { state, template, create_project: false }
            }
        },
        OnboardingEvent::SkipLogin => {
            if state == OnboardingState::Login {
                OnboardingStep { state: OnboardingState::Inactive, template, create_project: false }
            } else {
                OnboardingStep { state, template, create_project: false }
            }
        },
        OnboardingEvent::NewDocument => OnboardingStep {
            state: OnboardingState::TemplateSelection,
            template,
            create_project: false,
        },
    }
}

/// Whether the dialog is still in the way of the studio.
pub fn onboarding_active(state: OnboardingState) -> (r: bool)
    ensures
        r == (state != OnboardingState::Inactive),
{
    state != OnboardingState::Inactive
}

/// One brick of a new project, as far as its identity goes: its node id in
/// the saved file (no parent), its name, and whether physics moves it. Its
/// placement, size and color are the template's own.
pub struct TemplateBrick {
    pub node_id: u64,
    pub name: String,
    pub physics_enabled: bool,
}

/// The bricks a new project starts with: none for the empty template; for
/// the baseplate one, an anchored "Baseplate" (node 0) and a loose "Part0"
/// (node 1) resting on it.
pub fn template_bricks(template: SelectedTemplate) -> (r: Vec<TemplateBrick>)
    ensures
        template == SelectedTemplate::Empty ==> r@.len() == 0,
        template == SelectedTemplate::Baseplate ==> {
            &&& r@.len() == 2
            &&& r@[0].node_id == 0 && r@[0].name@ == "Baseplate"@ && !r@[0].physics_enabled
            &&& r@[1].node_id == 1 && r@[1].name@ == "Part0"@ && r@[1].physics_enabled
        },
{
    let mut bricks: Vec<TemplateBrick> = Vec::new();
    match template {
        SelectedTemplate::Empty => {},
        SelectedTemplate::Baseplate => {
            bricks.push(
                TemplateBrick { node_id: 0, name: String::from_str("Baseplate"), physics_enabled: false },
            );
            bricks.push(
                TemplateBrick { node_id: 1, name: String::from_str("Part0"), physics_enabled: true },
            );
        },
    }
    bricks
}

/// Whatever template is picked, the dialog goes through the project
/// details, creates the project on "Create!", and is out of the way once
/// the login is skipped; a new document always brings it back.
pub proof fn lemma_onboarding_walkthrough(template: SelectedTemplate, other: SelectedTemplate)
    ensures
        ({
            let a = next_step(OnboardingState::TemplateSelection, other, OnboardingEvent::ChooseTemplate(template));
            let b = next_step(a.state, a.template, OnboardingEvent::Create);
            let c = next_step(b.state, b.template, OnboardingEvent::SkipLogin);
            &&& a.state == OnboardingState::BasicInfo && !a.create_project
            &&& b.state == OnboardingState::Login && b.create_project && b.template == template
            &&& c.state == OnboardingState::Inactive && !c.create_project
        }),
        forall|s: OnboardingState, t: SelectedTemplate| #[trigger] next_step(s, t, OnboardingEvent::NewDocument).state
            == OnboardingState::TemplateSelection,
        forall|s: OnboardingState, t: SelectedTemplate, e: OnboardingEvent| #[trigger] next_step(s, t, e).create_project
            ==> s == OnboardingState::BasicInfo && e == OnboardingEvent::Create,
{
}

} // verus!
