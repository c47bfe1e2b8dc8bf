//! The report on what the agent needs from the local system.

use crate::capture::{Encoder, EncoderChoice};
use crate::desktop::Monitor;
use crate::messages::{signed, signed_text};
use crate::text::{
    begins_with, chars_of, decimal, decimal_text, join2, join3, opt_view, slice_begins_with,
};
use vstd::prelude::*;

verus! {

broadcast use vstd::string::group_string_axioms;

/// What a check came to.
pub struct Finding {
    pub ok: bool,
    pub what: String,
    pub detail: String,
}

/// What a check came to: whether all is well, what was looked at, and a detail.
pub struct FindingView {
    pub ok: bool,
    pub what: Seq<char>,
    pub detail: Seq<char>,
}

impl View for Finding {
    type V = FindingView;

    open spec fn view(&self) -> FindingView {
        FindingView { ok: self.ok, what: self.what@, detail: self.detail@ }
    }
}

/// One line of the report.
pub open spec fn report_line(f: FindingView) -> Seq<char> {
    (if f.ok {
        "  \u{2713} "@
    } else {
        "  \u{2717} "@
    }) + f.what + if f.detail.len() == 0 {
        Seq::empty()
    } else {
        " \u{2014} "@ + f.detail
    }
}

/// A thing that is there or not: what is said if it is missing.
pub open spec fn presence(what: Seq<char>, present: bool, missing: Seq<char>) -> FindingView {
    FindingView {
        ok: present,
        what,
        detail: if present {
            Seq::empty()
        } else {
            missing
        },
    }
}

/// Something that works, or fails for a reason.
pub open spec fn attempt(what: Seq<char>, failure: Option<Seq<char>>) -> FindingView {
    FindingView {
        ok: failure is None,
        what,
        detail: match failure {
            Some(why) => why,
            None => Seq::empty(),
        },
    }
}

/// A check that is made once the settings have been read, in the order of the plan.
#[derive(Clone, Copy, Debug, PartialEq, Eq)]
pub enum Check {
    /// Whether there is a GStreamer element of this name.
    Element(&'static str),
    /// Whether an encoder that this setting admits works.
    Encoder(EncoderChoice),
    /// Whether the device that input is injected through can be opened.
    Uinput,
    /// Which monitors there are.
    Monitors,
    /// Whether there is a command of this name.
    Tool(&'static str),
    /// What the portal's settings say.
    Picker,
    /// Whether the portal that the screen is captured through can be reached.
    Portal,
}

/// What is checked.
pub enum CheckView {
    Element(Seq<char>),
    Encoder(EncoderChoice),
    Uinput,
    Monitors,
    Tool(Seq<char>),
    Picker,
    Portal,
}

impl View for Check {
    type V = CheckView;

    open spec fn view(&self) -> CheckView {
        match *self {
            Check::Element(name) => CheckView::Element(name@),
            Check::Encoder(choice) => CheckView::Encoder(choice),
            Check::Uinput => CheckView::Uinput,
            Check::Monitors => CheckView::Monitors,
            Check::Tool(name) => CheckView::Tool(name@),
            Check::Picker => CheckView::Picker,
            Check::Portal => CheckView::Portal,
        }
    }
}

/// The checks that follow that of the settings. Where these cannot be used, encoders are probed.
pub open spec fn planned(choice: Option<EncoderChoice>) -> Seq<CheckView> {
    seq![
        CheckView::Element("pipewiresrc"@),
        CheckView::Element("pulsesrc"@),
        CheckView::Element("opusenc"@),
        CheckView::Element("h264parse"@),
        CheckView::Element("appsink"@),
        CheckView::Element("videoconvert"@),
        CheckView::Encoder(
            match choice {
                Some(c) => c,
                None => EncoderChoice::Auto,
            },
        ),
        CheckView::Uinput,
        CheckView::Monitors,
        CheckView::Tool("wl-copy"@),
        CheckView::Tool("wl-paste"@),
        CheckView::Tool("notify-send"@),
        CheckView::Picker,
        CheckView::Portal,
    ]
}

/// The checks that follow that of the settings, in order; `choice` is the encoder that these name, if
/// they can be used.
pub fn plan(choice: Option<EncoderChoice>) -> (checks: Vec<Check>)
    ensures
        checks@.map_values(|c: Check| c@) == planned(choice),
{
    let choice = match choice {
        Some(c) => c,
        None => EncoderChoice::default(),
    };
    let checks = vec![
        Check::Element("pipewiresrc"),
        Check::Element("pulsesrc"),
        Check::Element("opusenc"),
        Check::Element("h264parse"),
        Check::Element("appsink"),
        Check::Element("videoconvert"),
        Check::Encoder(choice),
        Check::Uinput,
        Check::Monitors,
        Check::Tool("wl-copy"),
        Check::Tool("wl-paste"),
        Check::Tool("notify-send"),
        Check::Picker,
        Check::Portal,
    ];
    assert(checks@.map_values(|c: Check| c@) =~= planned(Some(choice)));
    checks
}

/// What came of looking at one thing.
pub enum Outcome {
    /// The settings file, and the origin that it names or why it cannot be used.
    Config { path: String, settings: Result<String, String> },
    Element { name: &'static str, found: bool },
    Encoder(Result<Encoder, String>),
    Uinput(Option<String>),
    Monitors(Result<Vec<Monitor>, String>),
    Tool { name: &'static str, found: bool },
    /// The text of the portal's settings.
    Picker(String),
    Portal(Option<String>),
}

/// Whether an outcome is one of a check.
pub open spec fn answers(check: CheckView, outcome: Outcome) -> bool {
    match (check, outcome) {
        (CheckView::Element(asked), Outcome::Element { name, .. }) => name@ == asked,
        (CheckView::Encoder(_), Outcome::Encoder(_)) => true,
        (CheckView::Uinput, Outcome::Uinput(_)) => true,
        (CheckView::Monitors, Outcome::Monitors(_)) => true,
        (CheckView::Tool(asked), Outcome::Tool { name, .. }) => name@ == asked,
        (CheckView::Picker, Outcome::Picker(_)) => true,
        (CheckView::Portal, Outcome::Portal(_)) => true,
        _ => false,
    }
}

/// What is said of it.
pub open spec fn judged(outcome: Outcome) -> FindingView {
    match outcome {
        Outcome::Config { path, settings } => FindingView {
            ok: settings is Ok,
            what: "config"@,
            detail: match settings {
                Ok(origin) => path@ + " ("@ + origin@ + ")"@,
                Err(why) => why@,
            },
        },
        Outcome::Element { name, found } => presence(
            "GStreamer element "@ + name@,
            found,
            "missing plugin"@,
        ),
        Outcome::Encoder(encoder) => FindingView {
            ok: encoder is Ok,
            what: "H.264 encoder"@,
            detail: match encoder {
                Ok(e) => e.title(),
                Err(why) => why@,
            },
        },
        Outcome::Uinput(failure) => attempt("write access to /dev/uinput"@, opt_view(failure)),
        Outcome::Monitors(Ok(mons)) => FindingView {
            ok: true,
            what: "Hyprland monitors"@,
            detail: monitor_lines(mons@),
        },
        Outcome::Monitors(Err(why)) => FindingView {
            ok: false,
            what: "Hyprland monitors (hyprctl)"@,
            detail: why@,
        },
        Outcome::Tool { name, found } => presence(name@, found, Seq::empty()),
        Outcome::Picker(settings) => presence(
            "headless monitor picker (xdph.conf custom_picker_binary)"@,
            occurs(settings@, "desk-picker"@),
            "run scripts/setup.sh"@,
        ),
        Outcome::Portal(failure) => attempt("ScreenCast portal"@, opt_view(failure)),
    }
}

fn present_or(what: String, present: bool, missing: &str) -> (f: Finding)
    ensures
        f@ == presence(what@, present, missing@),
{
    let detail = if present {
        String::new()
    } else {
        missing.to_owned()
    };
    assert(present ==> detail@ =~= Seq::empty());
    Finding { ok: present, what, detail }
}

fn attempted(what: &str, failure: Option<String>) -> (f: Finding)
    ensures
        f@ == attempt(what@, opt_view(failure)),
{
    match failure {
        Some(why) => Finding { ok: false, what: what.to_owned(), detail: why },
        None => {
            let detail = String::new();
            assert(detail@ =~= Seq::empty());
            Finding { ok: true, what: what.to_owned(), detail }
        },
    }
}

/// What is said of an outcome.
pub fn finding(outcome: Outcome) -> (f: Finding)
    ensures
        f@ == judged(outcome),
{
    match outcome {
        Outcome::Config { path, settings: Ok(origin) } => {
            let mut detail = join3(&path, " (", &origin);
            detail.append(")");
            Finding { ok: true, what: "config".to_owned(), detail }
        },
        Outcome::Config { path: _, settings: Err(why) } => Finding {
            ok: false,
            what: "config".to_owned(),
            detail: why,
        },
        Outcome::Element { name, found } => present_or(
            join2("GStreamer element ", name),
            found,
            "missing plugin",
        ),
        Outcome::Encoder(Ok(encoder)) => Finding {
            ok: true,
            what: "H.264 encoder".to_owned(),
            detail: encoder.name().to_owned(),
        },
        Outcome::Encoder(Err(why)) => Finding {
            ok: false,
            what: "H.264 encoder".to_owned(),
            detail: why,
        },
        Outcome::Uinput(failure) => attempted("write access to /dev/uinput", failure),
        Outcome::Monitors(Ok(mons)) => Finding {
            ok: true,
            what: "Hyprland monitors".to_owned(),
            detail: monitors_detail(&mons),
        },
        Outcome::Monitors(Err(why)) => Finding {
            ok: false,
            what: "Hyprland monitors (hyprctl)".to_owned(),
            detail: why,
        },
        Outcome::Tool { name, found } => {
            let none = String::new();
            assert(none@ =~= Seq::empty());
            present_or(name.to_owned(), found, &none)
        },
        Outcome::Picker(settings) => present_or(
            "headless monitor picker (xdph.conf custom_picker_binary)".to_owned(),
            picker_configured(&settings),
            "run scripts/setup.sh",
        ),
        Outcome::Portal(failure) => attempted("ScreenCast portal", failure),
    }
}

/// The findings of a whole report: that of the settings, then one for each check that follows.
pub open spec fn whole_report(settings: Outcome, outcomes: Seq<Outcome>) -> Seq<FindingView> {
    seq![judged(settings)] + outcomes.map_values(|o: Outcome| judged(o))
}

/// How many of `findings` are failures.
pub open spec fn failures(findings: Seq<FindingView>) -> nat
    decreases findings.len(),
{
    if findings.len() == 0 {
        0
    } else {
        failures(findings.drop_last()) + if findings.last().ok {
            0nat
        } else {
            1nat
        }
    }
}

/// Takes note of findings, and counts the failures among them.
pub struct Report {
    failures: u32,
    seen: Ghost<Seq<FindingView>>,
}

impl Default for Report {
    fn default() -> (r: Report)
        ensures
            r.wf(),
            r.seen() == Seq::<FindingView>::empty(),
    {
        Report { failures: 0, seen: Ghost(Seq::empty()) }
    }
}

impl Report {
    /// Everything that was found so far.
    pub closed spec fn seen(&self) -> Seq<FindingView> {
        self.seen@
    }

    /// That the failures have been counted.
    pub closed spec fn wf(&self) -> bool {
        self.failures == failures(self.seen@)
    }

    /// Takes note of a finding: the line to print for it.
    pub fn check(&mut self, f: &Finding) -> (line: String)
        requires
            old(self).wf(),
            failures(old(self).seen()) < u32::MAX,
        ensures
            final(self).wf(),
            final(self).seen() == old(self).seen().push(f@),
            line@ == report_line(f@),
    {
        let mut line = if f.ok {
            join2("  \u{2713} ", &f.what)
        } else {
            join2("  \u{2717} ", &f.what)
        };
        if !f.detail.as_str().is_empty() {
            line.append(" \u{2014} ");
            line.append(&f.detail);
        }
        if !f.ok {
            self.failures = self.failures + 1;
        }
        proof {
            let longer = self.seen@.push(f@);
            assert(longer.drop_last() =~= self.seen@);
            self.seen@ = longer;
        }
        assert(line@ =~= report_line(f@));
        line
    }

    /// The last line: `Err` where a check failed.
    pub fn conclusion(&self) -> (r: Result<String, String>)
        requires
            self.wf(),
        ensures
            match r {
                Ok(line) => failures(self.seen()) == 0 && line@ == "All checks passed."@,
                Err(line) => failures(self.seen()) > 0 && line@ == decimal(failures(self.seen()))
                    + " check(s) failed"@,
            },
    {
        if self.failures == 0 {
            Ok("All checks passed.".to_owned())
        } else {
            Err(join2(&decimal_text(self.failures as u64), " check(s) failed"))
        }
    }
}

/// A monitor in the report.
pub open spec fn monitor_line(m: Monitor) -> Seq<char> {
    m.name@ + " "@ + signed(m.width as int) + "x"@ + signed(m.height as int)
}

/// Monitors in the report, separated by commas.
pub open spec fn monitor_lines(mons: Seq<Monitor>) -> Seq<char>
    decreases mons.len(),
{
    if mons.len() == 0 {
        Seq::empty()
    } else if mons.len() == 1 {
        monitor_line(mons[0])
    } else {
        monitor_lines(mons.drop_last()) + ", "@ + monitor_line(mons.last())
    }
}

/// What the report says of the monitors.
pub fn monitors_detail(mons: &Vec<Monitor>) -> (s: String)
    ensures
        s@ == monitor_lines(mons@),
{
    let mut s = String::new();
    let mut i: usize = 0;
    assert(s@ =~= monitor_lines(mons@.take(0)));
    while i < mons.len()
        invariant
            i <= mons@.len(),
            s@ == monitor_lines(mons@.take(i as int)),
        decreases mons@.len() - i,
    {
        let ghost longer = mons@.take(i + 1);
        assert(longer.drop_last() =~= mons@.take(i as int));
        assert(longer.last() == mons@[i as int]);
        let mut one = join3(&mons[i].name, " ", &signed_text(mons[i].width));
        one.append("x");
        one.append(&signed_text(mons[i].height));
        if i == 0 {
            s = one;
        } else {
            s = join3(&s, ", ", &one);
        }
        i += 1;
    }
    assert(mons@.take(i as int) =~= mons@);
    s
}

/// Whether `needle` occurs in `s`.
pub open spec fn occurs(s: Seq<char>, needle: Seq<char>) -> bool {
    exists|i: int| 0 <= i <= s.len() && #[trigger] begins_with(s.skip(i), needle)
}

/// Whether the configuration of the portal names the headless picker.
pub fn picker_configured(text: &str) -> (b: bool)
    ensures
        b == occurs(text@, "desk-picker"@),
{
    let chars = chars_of(text);
    let needle = chars_of("desk-picker");
    let mut i: usize = 0;
    loop
        invariant
            chars@ == text@,
            needle@ == "desk-picker"@,
            i <= chars@.len(),
            forall|j: int| 0 <= j < i ==> !(#[trigger] begins_with(text@.skip(j), needle@)),
        decreases chars@.len() - i,
    {
        assert(chars@.subrange(i as int, chars@.len() as int) =~= text@.skip(i as int));
        if slice_begins_with(&chars, i, chars.len(), &needle) {
            assert(begins_with(text@.skip(i as int), "desk-picker"@));
            return true;
        }
        if i == chars.len() {
            return false;
        }
        i += 1;
    }
}

/// A report counts no failure exactly if all is well with everything it takes note of.
pub proof fn no_failure_means_all_is_well(findings: Seq<FindingView>)
    ensures
        failures(findings) == 0 <==> forall|i: int|
            0 <= i < findings.len() ==> (#[trigger] findings[i]).ok,
    decreases findings.len(),
{
    if findings.len() > 0 {
        let init = findings.drop_last();
        no_failure_means_all_is_well(init);
        assert forall|i: int| 0 <= i < init.len() implies #[trigger] init[i] == findings[i] by {}
        if failures(findings) == 0 {
            assert forall|i: int| 0 <= i < findings.len() implies (#[trigger] findings[i]).ok by {
                if i < init.len() {
                    assert(init[i].ok);
                }
            }
        }
        if forall|i: int| 0 <= i < findings.len() ==> (#[trigger] findings[i]).ok {
            assert forall|i: int| 0 <= i < init.len() implies (#[trigger] init[i]).ok by {
                assert(findings[i].ok);
            }
            assert(findings[findings.len() - 1].ok);
        }
    }
}

/// A whole report has fifteen findings. It counts no failure exactly if the settings can be used, all
/// elements and commands are there, an encoder works, the device and the portal can be opened, the
/// monitors are known, and the portal's settings name the picker.
pub proof fn a_whole_report_misses_nothing(
    choice: Option<EncoderChoice>,
    settings: Outcome,
    outcomes: Seq<Outcome>,
)
    requires
        settings is Config,
        outcomes.len() == planned(choice).len(),
        forall|i: int|
            0 <= i < outcomes.len() ==> answers(planned(choice)[i], #[trigger] outcomes[i]),
    ensures
        whole_report(settings, outcomes).len() == 15,
        failures(whole_report(settings, outcomes)) == 0 <==> {
            &&& settings->settings is Ok
            &&& forall|i: int| 0 <= i < 6 ==> (#[trigger] outcomes[i])->Element_found
            &&& outcomes[6]->Encoder_0 is Ok
            &&& outcomes[7]->Uinput_0 is None
            &&& outcomes[8]->Monitors_0 is Ok
            &&& forall|i: int| 9 <= i < 12 ==> (#[trigger] outcomes[i])->Tool_found
            &&& occurs(outcomes[12]->Picker_0@, "desk-picker"@)
            &&& outcomes[13]->Portal_0 is None
        },
{
    let findings = whole_report(settings, outcomes);
    no_failure_means_all_is_well(findings);
    assert(findings[0] == judged(settings));
    assert forall|i: int| 0 <= i < outcomes.len() implies findings[i + 1] == judged(
        #[trigger] outcomes[i],
    ) by {}
    assert(answers(planned(choice)[6], outcomes[6]));
    assert(answers(planned(choice)[7], outcomes[7]));
    assert(answers(planned(choice)[8], outcomes[8]));
    assert(answers(planned(choice)[12], outcomes[12]));
    assert(answers(planned(choice)[13], outcomes[13]));
}

/// Everything that the agent needs is checked, each thing once: six GStreamer elements, the encoder
/// that the settings name or else any, the input device, the monitors, three commands, the picker and
/// the portal.
pub proof fn the_plan_covers_what_is_needed(choice: Option<EncoderChoice>)
    ensures
        planned(choice).len() == 14,
        planned(choice).contains(CheckView::Element("pipewiresrc"@)),
        planned(choice).contains(CheckView::Element("pulsesrc"@)),
        planned(choice).contains(CheckView::Element("opusenc"@)),
        planned(choice).contains(CheckView::Element("h264parse"@)),
        planned(choice).contains(CheckView::Element("appsink"@)),
        planned(choice).contains(CheckView::Element("videoconvert"@)),
        choice is Some ==> planned(choice).contains(CheckView::Encoder(choice->0)),
        choice is None ==> planned(choice).contains(CheckView::Encoder(EncoderChoice::Auto)),
        planned(choice).contains(CheckView::Uinput),
        planned(choice).contains(CheckView::Monitors),
        planned(choice).contains(CheckView::Tool("wl-copy"@)),
        planned(choice).contains(CheckView::Tool("wl-paste"@)),
        planned(choice).contains(CheckView::Tool("notify-send"@)),
        planned(choice).contains(CheckView::Picker),
        planned(choice).contains(CheckView::Portal),
{
    let p = planned(choice);
    assert(p[0] == CheckView::Element("pipewiresrc"@));
    assert(p[1] == CheckView::Element("pulsesrc"@));
    assert(p[2] == CheckView::Element("opusenc"@));
    assert(p[3] == CheckView::Element("h264parse"@));
    assert(p[4] == CheckView::Element("appsink"@));
    assert(p[5] == CheckView::Element("videoconvert"@));
    assert(p[6] is Encoder);
    assert(p[7] == CheckView::Uinput);
    assert(p[8] == CheckView::Monitors);
    assert(p[9] == CheckView::Tool("wl-copy"@));
    assert(p[10] == CheckView::Tool("wl-paste"@));
    assert(p[11] == CheckView::Tool("notify-send"@));
    assert(p[12] == CheckView::Picker);
    assert(p[13] == CheckView::Portal);
}

/// Whether all is well with a thing is what looking at it showed.
pub proof fn findings_follow_the_outcome(outcome: Outcome)
    ensures
        judged(outcome).ok <==> match outcome {
            Outcome::Config { settings, .. } => settings is Ok,
            Outcome::Element { found, .. } => found,
            Outcome::Encoder(encoder) => encoder is Ok,
            Outcome::Uinput(failure) => failure is None,
            Outcome::Monitors(mons) => mons is Ok,
            Outcome::Tool { found, .. } => found,
            Outcome::Picker(settings) => occurs(settings@, "desk-picker"@),
            Outcome::Portal(failure) => failure is None,
        },
{
}

/// What went wrong is told in the words in which it was reported, and what is missing by its name.
pub proof fn findings_tell_what_is_wrong(outcome: Outcome)
    ensures
        outcome matches Outcome::Config { settings: Err(why), .. } ==> judged(outcome).detail == why@,
        outcome matches Outcome::Encoder(Err(why)) ==> judged(outcome).detail == why@,
        outcome matches Outcome::Uinput(Some(why)) ==> judged(outcome).detail == why@,
        outcome matches Outcome::Monitors(Err(why)) ==> judged(outcome).detail == why@,
        outcome matches Outcome::Portal(Some(why)) ==> judged(outcome).detail == why@,
        outcome matches Outcome::Element { name, found } ==> judged(outcome).what
            == "GStreamer element "@ + name@ && judged(outcome).detail == (if found {
            Seq::empty()
        } else {
            "missing plugin"@
        }),
        outcome matches Outcome::Tool { name, .. } ==> judged(outcome).what == name@ && judged(
            outcome,
        ).detail.len() == 0,
        outcome matches Outcome::Config { path, settings: Ok(origin) } ==> judged(outcome).detail
            == path@ + " ("@ + origin@ + ")"@,
        outcome matches Outcome::Monitors(Ok(mons)) ==> judged(outcome).detail == monitor_lines(mons@),
        outcome matches Outcome::Encoder(Ok(e)) ==> judged(outcome).detail == e.title(),
{
}

/// A line of the report has a tick where all is well and a cross where not, then names the thing, and
/// gives the detail behind a dash if there is one.
pub proof fn lines_show_how_it_went(f: FindingView)
    ensures
        report_line(f).len() >= 4,
        report_line(f)[2] == (if f.ok {
            '\u{2713}'
        } else {
            '\u{2717}'
        }),
        report_line(f).skip(4) == if f.detail.len() == 0 {
            f.what
        } else {
            f.what + " \u{2014} "@ + f.detail
        },
{
    reveal_strlit("  \u{2713} ");
    reveal_strlit("  \u{2717} ");
    if f.detail.len() == 0 {
        assert(report_line(f).skip(4) =~= f.what);
    } else {
        assert(report_line(f).skip(4) =~= f.what + " \u{2014} "@ + f.detail);
    }
}

/// Failures add up: every finding that is not well counts one, wherever it stands.
pub proof fn failures_are_counted(first: Seq<FindingView>, second: Seq<FindingView>, f: FindingView)
    ensures
        failures(first + second) == failures(first) + failures(second),
        failures(seq![f]) == (if f.ok {
            0int
        } else {
            1int
        }),
        failures(Seq::<FindingView>::empty()) == 0,
    decreases second.len(),
{
    reveal_with_fuel(failures, 2);
    assert(seq![f].drop_last() =~= Seq::empty());
    if second.len() == 0 {
        assert(first + second =~= first);
    } else {
        failures_are_counted(first, second.drop_last(), f);
        assert((first + second).drop_last() =~= first + second.drop_last());
    }
}

/// Monitors are listed by name and size, with a comma between two and nowhere else.
pub proof fn monitors_are_listed_by_size(first: Seq<Monitor>, second: Seq<Monitor>, m: Monitor)
    requires
        first.len() > 0,
    ensures
        second.len() > 0 ==> monitor_lines(first + second) == monitor_lines(first) + ", "@
            + monitor_lines(second),
        monitor_lines(seq![m]) == m.name@ + " "@ + signed(m.width as int) + "x"@ + signed(
            m.height as int,
        ),
        monitor_lines(Seq::<Monitor>::empty()).len() == 0,
    decreases second.len(),
{
    if second.len() == 1 {
        assert((first + second).drop_last() =~= first);
        assert((first + second).last() == second[0]);
    } else if second.len() > 1 {
        let rest = second.drop_last();
        monitors_are_listed_by_size(first, rest, m);
        assert((first + second).drop_last() =~= first + rest);
        assert((first + second).last() == second.last());
        assert(monitor_lines(first + second) =~= monitor_lines(first) + ", "@ + monitor_lines(
            second,
        ));
    }
}

/// A text occurs wherever something may stand before and behind it, and nowhere else.
pub proof fn texts_occur_anywhere(
    before: Seq<char>,
    needle: Seq<char>,
    after: Seq<char>,
    s: Seq<char>,
)
    ensures
        occurs(before + needle + after, needle),
        occurs(s, needle) ==> exists|i: int|
            0 <= i <= s.len() - needle.len() && #[trigger] s.subrange(i, i + needle.len()) == needle,
{
    let whole = before + needle + after;
    assert(whole.skip(before.len() as int) =~= needle + after);
    assert((needle + after).take(needle.len() as int) =~= needle);
    assert(begins_with(whole.skip(before.len() as int), needle));
    if occurs(s, needle) {
        let i = choose|i: int| 0 <= i <= s.len() && #[trigger] begins_with(s.skip(i), needle);
        assert(s.skip(i).take(needle.len() as int) =~= s.subrange(i, i + needle.len()));
    }
}

/// Each finding names what was looked at.
pub proof fn findings_name_the_thing(outcome: Outcome)
    ensures
        outcome is Config ==> judged(outcome).what == "config"@,
        outcome is Encoder ==> judged(outcome).what == "H.264 encoder"@,
        outcome is Uinput ==> judged(outcome).what == "write access to /dev/uinput"@,
        outcome matches Outcome::Monitors(mons) ==> judged(outcome).what == (if mons is Ok {
            "Hyprland monitors"@
        } else {
            "Hyprland monitors (hyprctl)"@
        }),
        outcome matches Outcome::Picker(settings) ==> judged(outcome).what
            == "headless monitor picker (xdph.conf custom_picker_binary)"@ && judged(outcome).detail
            == (if occurs(settings@, "desk-picker"@) {
            Seq::empty()
        } else {
            "run scripts/setup.sh"@
        }),
        outcome is Portal ==> judged(outcome).what == "ScreenCast portal"@,
        outcome matches Outcome::Uinput(None) ==> judged(outcome).detail.len() == 0,
        outcome matches Outcome::Portal(None) ==> judged(outcome).detail.len() == 0,
{
}

/// The report begins with the settings and goes on with every check in the order of the plan.
pub proof fn reports_keep_the_order(settings: Outcome, outcomes: Seq<Outcome>, i: int)
    ensures
        whole_report(settings, outcomes).len() == outcomes.len() + 1,
        whole_report(settings, outcomes)[0] == judged(settings),
        0 <= i < outcomes.len() ==> whole_report(settings, outcomes)[i + 1] == judged(outcomes[i]),
{
}

} // verus!
