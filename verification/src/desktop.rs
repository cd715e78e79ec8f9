//! Applications as the launcher knows them, and how a descriptor or a
//! configured entry becomes one.

pub use crate::catalog::discover_apps;
use crate::config::CustomApp;
use crate::entry::{Descriptor, DescriptorView};
pub use crate::launch::launch_app;
use crate::text::{
    chars_of, copy_opt_string, copy_string, copy_strings, opt_view, string_of_range, strings_view,
    trim, trim_bounds,
};
use vstd::prelude::*;

verus! {

/// How an application is started.
#[derive(Debug)]
pub enum LaunchStrategy {
    /// The program and its arguments, handed to the system as they are.
    Direct(Vec<String>),
    /// A command line for a shell to interpret.
    ShellLine(String),
}

/// A launch strategy as specifications see it.
pub enum StrategyView {
    Direct(Seq<Seq<char>>),
    ShellLine(Seq<char>),
}

impl View for LaunchStrategy {
    type V = StrategyView;

    open spec fn view(&self) -> StrategyView {
        match self {
            LaunchStrategy::Direct(argv) => StrategyView::Direct(strings_view(argv@)),
            LaunchStrategy::ShellLine(command) => StrategyView::ShellLine(command@),
        }
    }
}

impl LaunchStrategy {
    /// A copy of this strategy.
    pub fn duplicate(&self) -> (r: LaunchStrategy)
        ensures
            r@ == self@,
    {
        match self {
            LaunchStrategy::Direct(argv) => LaunchStrategy::Direct(copy_strings(argv)),
            LaunchStrategy::ShellLine(command) => LaunchStrategy::ShellLine(copy_string(command)),
        }
    }
}

/// Something the launcher can start.
#[derive(Debug)]
pub struct App {
    /// The name shown to the user; favorites and exclusions go by it.
    pub name: String,
    /// The command line, for display.
    pub command: String,
    pub icon: Option<String>,
    pub description: Option<String>,
    pub keywords: Vec<String>,
    pub runs_in_terminal: bool,
    pub launch_strategy: LaunchStrategy,
}

/// An application as specifications see it.
pub struct AppView {
    pub name: Seq<char>,
    pub command: Seq<char>,
    pub icon: Option<Seq<char>>,
    pub description: Option<Seq<char>>,
    pub keywords: Seq<Seq<char>>,
    pub runs_in_terminal: bool,
    pub launch_strategy: StrategyView,
}

impl View for App {
    type V = AppView;

    open spec fn view(&self) -> AppView {
        AppView {
            name: self.name@,
            command: self.command@,
            icon: opt_view(self.icon),
            description: opt_view(self.description),
            keywords: strings_view(self.keywords@),
            runs_in_terminal: self.runs_in_terminal,
            launch_strategy: self.launch_strategy@,
        }
    }
}

/// The applications of a list, as specifications see them.
pub open spec fn apps_view(apps: Seq<App>) -> Seq<AppView> {
    Seq::new(apps.len(), |i: int| apps[i]@)
}

/// An application can be launched: a direct strategy names a program.
pub open spec fn is_launchable(app: AppView) -> bool {
    match app.launch_strategy {
        StrategyView::Direct(argv) => argv.len() > 0,
        StrategyView::ShellLine(_) => true,
    }
}

/// The application that a configured entry stands for. Its command line is
/// always left to a shell.
pub open spec fn custom_app(custom: crate::config::CustomAppView) -> AppView {
    AppView {
        name: custom.name,
        command: custom.command,
        icon: custom.icon,
        description: None,
        keywords: custom.keywords,
        runs_in_terminal: false,
        launch_strategy: StrategyView::ShellLine(custom.command),
    }
}

/// The words of `keywords`, each with a space before it.
pub open spec fn spaced(keywords: Seq<Seq<char>>) -> Seq<char>
    decreases keywords.len(),
{
    if keywords.len() == 0 {
        Seq::empty()
    } else {
        spaced(keywords.drop_last()) + seq![' '] + keywords.last()
    }
}

/// The text that a search runs over: the name, then the description if
/// there is one, then the keywords, with single spaces between them.
pub open spec fn search_text_of(app: AppView) -> Seq<char> {
    app.name + (match app.description {
        Some(d) => seq![' '] + d,
        None => Seq::empty(),
    }) + spaced(app.keywords)
}

impl App {
    /// The application that a configured entry stands for.
    pub fn from_custom(custom: &CustomApp) -> (app: App)
        ensures
            app@ == custom_app(custom@),
            app@.launch_strategy is ShellLine,
            is_launchable(app@),
    {
        App {
            name: copy_string(&custom.name),
            command: copy_string(&custom.command),
            icon: copy_opt_string(&custom.icon),
            description: None,
            keywords: copy_strings(&custom.keywords),
            runs_in_terminal: false,
            launch_strategy: LaunchStrategy::ShellLine(copy_string(&custom.command)),
        }
    }

    /// The text that a search for this application runs over.
    pub fn search_text(&self) -> (text: String)
        ensures
            text@ == search_text_of(self@),
    {
        let mut text = self.name.clone();
        match &self.description {
            Some(desc) => {
                text.append(" ");
                text.append(desc.as_str());
                proof {
                    reveal_strlit(" ");
                    assert(" "@ =~= seq![' ']);
                }
            },
            None => {},
        }
        let ghost head = text@;
        assert(head =~= self@.name + (match self@.description {
            Some(d) => seq![' '] + d,
            None => Seq::empty(),
        }));
        let mut i: usize = 0;
        assert(strings_view(self.keywords@).take(0) =~= Seq::<Seq<char>>::empty());
        assert(head + Seq::<char>::empty() =~= head);
        while i < self.keywords.len()
            invariant
                i <= self.keywords.len(),
                text@ == head + spaced(strings_view(self.keywords@).take(i as int)),
            decreases self.keywords.len() - i,
        {
            let ghost before = text@;
            text.append(" ");
            text.append(self.keywords[i].as_str());
            proof {
                reveal_strlit(" ");
                assert(" "@ =~= seq![' ']);
                let kws = strings_view(self.keywords@);
                assert(kws.take(i + 1).drop_last() =~= kws.take(i as int));
                assert(kws.take(i + 1).last() == self.keywords[i as int]@);
                assert(text@ =~= head + spaced(kws.take(i + 1)));
            }
            i = i + 1;
        }
        assert(strings_view(self.keywords@).take(self.keywords.len() as int) =~= strings_view(
            self.keywords@,
        ));
        text
    }

    /// A copy of this application.
    pub fn duplicate(&self) -> (r: App)
        ensures
            r@ == self@,
    {
        App {
            name: copy_string(&self.name),
            command: copy_string(&self.command),
            icon: copy_opt_string(&self.icon),
            description: copy_opt_string(&self.description),
            keywords: copy_strings(&self.keywords),
            runs_in_terminal: self.runs_in_terminal,
            launch_strategy: self.launch_strategy.duplicate(),
        }
    }
}

/// Whether `c`, right after a percent sign, makes a field code of the
/// desktop-entry convention.
pub open spec fn is_field_code(c: char) -> bool {
    ||| c == 'f'
    ||| c == 'F'
    ||| c == 'u'
    ||| c == 'U'
    ||| c == 'd'
    ||| c == 'D'
    ||| c == 'n'
    ||| c == 'N'
    ||| c == 'i'
    ||| c == 'c'
    ||| c == 'k'
    ||| c == 'v'
    ||| c == 'm'
}

/// Tests a character for making a field code.
fn char_is_field_code(c: char) -> (r: bool)
    ensures
        r == is_field_code(c),
{
    c == 'f' || c == 'F' || c == 'u' || c == 'U' || c == 'd' || c == 'D' || c == 'n' || c == 'N'
        || c == 'i' || c == 'c' || c == 'k' || c == 'v' || c == 'm'
}

/// A command line without its field codes: a percent sign and the character
/// after it form a unit. The unit `%%` stands for one percent sign; a field
/// code stands for nothing; any other unit stands for itself. A percent sign
/// with nothing after it stands for nothing.
pub open spec fn without_field_codes(s: Seq<char>) -> Seq<char>
    decreases s.len(),
{
    if s.len() == 0 {
        Seq::empty()
    } else if s[0] != '%' {
        seq![s[0]] + without_field_codes(s.skip(1))
    } else if s.len() == 1 {
        Seq::empty()
    } else if s[1] == '%' {
        seq!['%'] + without_field_codes(s.skip(2))
    } else if is_field_code(s[1]) {
        without_field_codes(s.skip(2))
    } else {
        seq!['%', s[1]] + without_field_codes(s.skip(2))
    }
}

/// A command line as it is shown: without field codes, and without white
/// space at either end.
pub open spec fn display_command(exec: Seq<char>) -> Seq<char> {
    trim(without_field_codes(exec))
}

/// Makes a descriptor's command line fit for display.
pub fn clean_exec(exec: &str) -> (shown: String)
    ensures
        shown@ == display_command(exec@),
{
    let v = chars_of(exec);
    let n = v.len();
    let mut out: Vec<char> = Vec::new();
    let mut i: usize = 0;
    assert(v@.skip(0) =~= v@);
    assert(out@ + without_field_codes(v@) =~= without_field_codes(v@));
    while i < n
        invariant
            i <= n == v.len(),
            out@ + without_field_codes(v@.skip(i as int)) == without_field_codes(v@),
        decreases n - i,
    {
        let ghost rest = v@.skip(i as int);
        let ghost before = out@;
        let c = v[i];
        assert(rest[0] == c);
        if c != '%' {
            out.push(c);
            assert(rest.skip(1) =~= v@.skip(i + 1));
            assert(out@ + without_field_codes(v@.skip(i + 1)) =~= before + without_field_codes(
                rest,
            ));
            i = i + 1;
        } else if i + 1 == n {
            assert(rest.len() == 1);
            assert(v@.skip(n as int).len() == 0);
            assert(out@ + without_field_codes(v@.skip(n as int)) =~= before + without_field_codes(
                rest,
            ));
            i = n;
        } else {
            let next = v[i + 1];
            assert(rest[1] == next);
            assert(rest.skip(2) =~= v@.skip(i + 2));
            if next == '%' {
                out.push('%');
            } else if !char_is_field_code(next) {
                out.push('%');
                out.push(next);
            }
            assert(out@ + without_field_codes(v@.skip(i + 2)) =~= before + without_field_codes(
                rest,
            ));
            i = i + 2;
        }
    }
    assert(v@.skip(n as int).len() == 0);
    assert(out@ =~= without_field_codes(v@));
    let (lo, hi) = trim_bounds(&out);
    string_of_range(&out, lo, hi)
}

/// An application that may be missing, as specifications see it.
pub open spec fn app_opt_view(app: Option<App>) -> Option<AppView> {
    match app {
        Some(app) => Some(app@),
        None => None,
    }
}

/// The application that a descriptor stands for, if it stands for one. A
/// descriptor marked as hidden or as not to be displayed stands for none, and
/// neither does one without a name, without a command line, or with a
/// command line that gives no program to run. The application is started
/// directly, with the program and arguments that its command line gave.
pub open spec fn normalized(d: DescriptorView) -> Option<AppView> {
    if d.no_display || d.hidden {
        None
    } else if d.name is Some && d.command is Some && d.arguments is Some
        && d.arguments.unwrap().len() > 0 {
        Some(
            AppView {
                name: d.name.unwrap(),
                command: display_command(d.command.unwrap()),
                icon: d.icon,
                description: d.comment,
                keywords: d.keywords,
                runs_in_terminal: d.terminal,
                launch_strategy: StrategyView::Direct(d.arguments.unwrap()),
            },
        )
    } else {
        None
    }
}

/// Turns a descriptor into the application it stands for, if it stands for one.
pub fn normalize(d: &Descriptor) -> (app: Option<App>)
    ensures
        app_opt_view(app) == normalized(d@),
        app matches Some(a) ==> a@.launch_strategy is Direct && is_launchable(a@),
{
    if d.no_display || d.hidden {
        return None;
    }
    match (&d.name, &d.command, &d.arguments) {
        (Some(name), Some(command), Some(arguments)) => {
            if arguments.len() == 0 {
                return None;
            }
            Some(
                App {
                    name: copy_string(name),
                    command: clean_exec(command.as_str()),
                    icon: copy_opt_string(&d.icon),
                    description: copy_opt_string(&d.comment),
                    keywords: copy_strings(&d.keywords),
                    runs_in_terminal: d.terminal,
                    launch_strategy: LaunchStrategy::Direct(copy_strings(arguments)),
                },
            )
        },
        _ => None,
    }
}

} // verus!
