use roomcore::application::{Application, Event, EventOutcome, KeySym};
use roomcore::mode::{Director, HookLog, Mode, Transition};
use std::cell::RefCell;
use std::rc::Rc;

type Log = Rc<RefCell<Vec<String>>>;

/// A mode that logs each call; mode A asks to switch to B at its first tick.
struct Logged {
    name: &'static str,
    log: Log,
    next: Option<&'static str>,
    quit_at_tick: bool,
}

impl Logged {
    fn new(name: &'static str, log: &Log) -> Logged {
        Logged { name, log: log.clone(), next: None, quit_at_tick: false }
    }

    fn note(&self, what: &str) {
        self.log.borrow_mut().push(format!("{}.{}", self.name, what));
    }
}

impl HookLog for Logged {}

impl Mode<Vec<String>> for Logged {
    fn load(&mut self, renderer: &mut Vec<String>) {
        renderer.push(format!("load {}", self.name));
        self.note("load");
    }

    fn init(&mut self) {
        self.note("init");
    }

    fn tick(&mut self, deltatime: u64) -> Transition<Logged> {
        self.note(&format!("tick {}", deltatime));
        if self.quit_at_tick {
            return Transition::Quit;
        }
        match self.next.take() {
            Some(n) => Transition::SwitchTo(Logged::new(n, &self.log)),
            None => Transition::Continue,
        }
    }

    fn draw(&mut self, renderer: &mut Vec<String>, _deltatime: u64) {
        renderer.push(format!("draw {}", self.name));
        self.note("draw");
    }

    fn quit(&mut self) {
        self.note("quit");
    }
}

fn entries(log: &Log) -> Vec<String> {
    log.borrow().clone()
}

#[test]
fn switch_quits_old_before_loading_new() {
    let log: Log = Rc::new(RefCell::new(Vec::new()));
    let mut renderer: Vec<String> = Vec::new();
    let mut d: Director<Logged> = Director::new();
    let mut a = Logged::new("A", &log);
    a.next = Some("B");
    d.change_state(a, &mut renderer);
    let cmd = d.tick::<Vec<String>>(5);
    d.draw(&mut renderer, 5);
    assert!(d.apply(cmd, &mut renderer));
    let cmd = d.tick::<Vec<String>>(7);
    assert!(matches!(cmd, Transition::Continue));
    assert_eq!(
        entries(&log),
        vec!["A.load", "A.init", "A.tick 5", "A.draw", "A.quit", "B.load", "B.init", "B.tick 7"]
    );
    d.quit::<Vec<String>>();
    d.quit::<Vec<String>>();
    assert_eq!(entries(&log).last().unwrap(), "B.quit");
    assert_eq!(entries(&log).iter().filter(|e| e.ends_with("quit")).count(), 2);
}

#[test]
fn director_without_mode_continues() {
    let mut renderer: Vec<String> = Vec::new();
    let mut d: Director<Logged> = Director::new();
    assert!(matches!(d.tick::<Vec<String>>(1), Transition::Continue));
    d.draw(&mut renderer, 1);
    assert!(renderer.is_empty());
}

#[test]
fn application_frame_sequence() {
    let log: Log = Rc::new(RefCell::new(Vec::new()));
    let mut renderer: Vec<String> = Vec::new();
    let mut app: Application<Logged> = Application::new();
    let mut a = Logged::new("A", &log);
    a.next = Some("B");
    app.init(a, &mut renderer, 1_000);
    assert_eq!(app.begin_frame(2_000_001_000), Some(0));
    assert_eq!(app.deltatime(), 66_666_666);
    let cmd = app.iterate(&mut renderer);
    assert!(app.end_frame(cmd, &mut renderer));
    assert_eq!(renderer, vec!["load A", "draw A", "load B"]);
    assert_eq!(
        entries(&log),
        vec!["A.load", "A.init", "A.tick 66666666", "A.draw", "A.quit", "B.load", "B.init"]
    );
    assert_eq!(app.begin_frame(2_010_001_000), None);
    assert_eq!(app.deltatime(), 10_000_000);
    app.quit::<Vec<String>>();
    assert_eq!(entries(&log).last().unwrap(), "B.quit");
}

#[test]
fn application_quit_command_stops() {
    let log: Log = Rc::new(RefCell::new(Vec::new()));
    let mut renderer: Vec<String> = Vec::new();
    let mut app: Application<Logged> = Application::new();
    let mut a = Logged::new("A", &log);
    a.quit_at_tick = true;
    app.init(a, &mut renderer, 0);
    app.event(Event::Key { key: KeySym::Other, scancode: 4, down: true, repeat: false, alt: false });
    app.begin_frame(1_000_000);
    let cmd = app.iterate(&mut renderer);
    assert!(matches!(cmd, Transition::Quit));
    assert!(!app.end_frame(cmd, &mut renderer));
    assert!(app.keyboard.just_pressed(4));
    assert_eq!(renderer, vec!["load A", "draw A"]);
}

#[test]
fn application_input_frames_advance() {
    let log: Log = Rc::new(RefCell::new(Vec::new()));
    let mut renderer: Vec<String> = Vec::new();
    let mut app: Application<Logged> = Application::new();
    app.init(Logged::new("A", &log), &mut renderer, 0);
    app.event(Event::Key { key: KeySym::Other, scancode: 4, down: true, repeat: false, alt: false });
    app.event(Event::PadAdded { id: 2 });
    app.event(Event::PadButton { id: 2, button: 1, down: true });
    app.event(Event::PadAxis { id: 2, axis: 0, value: 32000 });
    assert!(app.keyboard.just_pressed(4));
    assert!(app.gamepads.just_pressed(2, 1));
    assert_eq!(app.gamepads.axis(2, 0, 8000, 32000), 1000000);
    app.begin_frame(1_000_000);
    let cmd = app.iterate(&mut renderer);
    assert!(app.end_frame(cmd, &mut renderer));
    assert!(app.keyboard.is_down(4) && !app.keyboard.just_pressed(4));
    assert!(app.gamepads.is_down(2, 1) && !app.gamepads.just_pressed(2, 1));
    app.event(Event::PadRemoved { id: 2 });
    app.event(Event::PadButton { id: 2, button: 1, down: true });
    assert!(!app.gamepads.is_down(2, 1));
}

#[test]
fn application_loop_level_events() {
    let mut app: Application<Logged> = Application::new();
    assert_eq!(app.event(Event::Quit), EventOutcome::Success);
    let esc_down = Event::Key { key: KeySym::Other, scancode: 41, down: true, repeat: false, alt: false };
    assert_eq!(app.event(esc_down), EventOutcome::Continue);
    assert!(app.keyboard.just_pressed(41));
    let toggle = Event::Key { key: KeySym::Return, scancode: 40, down: true, repeat: false, alt: true };
    assert_eq!(app.event(toggle), EventOutcome::SetFullscreen(true));
    assert!(!app.currently_fullscreen);
    assert!(!app.keyboard.is_down(40));
    assert_eq!(app.event(Event::EnterFullscreen), EventOutcome::Continue);
    assert!(app.currently_fullscreen);
    assert_eq!(app.event(toggle), EventOutcome::SetFullscreen(false));
    assert_eq!(app.event(Event::LeaveFullscreen), EventOutcome::Continue);
    assert!(!app.currently_fullscreen);
    let repeat = Event::Key { key: KeySym::Return, scancode: 40, down: true, repeat: true, alt: true };
    assert_eq!(app.event(repeat), EventOutcome::Continue);
    assert!(app.keyboard.is_down(40));
    let plain = Event::Key { key: KeySym::Return, scancode: 40, down: false, repeat: false, alt: false };
    assert_eq!(app.event(plain), EventOutcome::Continue);
    assert!(!app.keyboard.is_down(40));
    assert!(!app.keyboard.just_released(40));
    assert_eq!(app.event(Event::Other), EventOutcome::Continue);
}
