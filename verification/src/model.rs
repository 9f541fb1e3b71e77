//! The monitor's state: what it knows of the machine between refreshes, the
//! page shown and the process order, and how messages change it.

use vstd::prelude::*;
use crate::text::{chars_of, decimal, next_piece, push_decimal, split_on, string_of_range, lemma_split_join,
    lemma_split_single};
use crate::processes::ProcessSort;
use crate::gpu::GpuReading;
use crate::os_release::{os_name, os_name_text};
use vstd::string::StringExecFns;

verus! {

/// Seconds between two readings of the machine.
pub const REFRESH_SECONDS: u64 = 2;

/// The pages of the monitor.
#[derive(Debug, Clone, Copy, PartialEq, Eq, Structural)]
pub enum Page {
    Overview,
    Cpu,
    Memory,
    Processes,
    Network,
    Disks,
    Gpu,
}

/// The events that change the monitor's state.
#[derive(Debug, Clone, Copy, PartialEq, Eq, Structural)]
pub enum Message {
    /// Time to read the machine again.
    RefreshSystemInfo,
    /// Show the process list in another order.
    SortProcesses(ProcessSort),
}

impl Page {
    /// The page's name in the navigation and the window title.
    pub open spec fn label_text(self) -> Seq<char> {
        match self {
            Page::Overview => "Overview"@,
            Page::Cpu => "CPU"@,
            Page::Memory => "Memory"@,
            Page::Processes => "Processes"@,
            Page::Network => "Network"@,
            Page::Disks => "Disks"@,
            Page::Gpu => "GPU"@,
        }
    }

    /// The page's name in the navigation and the window title.
    pub fn label(&self) -> (r: &'static str)
        ensures
            r@ == self.label_text(),
    {
        match self {
            Page::Overview => "Overview",
            Page::Cpu => "CPU",
            Page::Memory => "Memory",
            Page::Processes => "Processes",
            Page::Network => "Network",
            Page::Disks => "Disks",
            Page::Gpu => "GPU",
        }
    }

    /// The name of the page's icon in the navigation.
    pub open spec fn icon_text(self) -> Seq<char> {
        match self {
            Page::Overview => "computer-symbolic"@,
            Page::Cpu => "cpu-symbolic"@,
            Page::Memory => "drive-harddisk-symbolic"@,
            Page::Processes => "process-working-symbolic"@,
            Page::Network => "network-wireless-symbolic"@,
            Page::Disks => "drive-harddisk-symbolic"@,
            Page::Gpu => "video-card-symbolic"@,
        }
    }

    /// The name of the page's icon in the navigation.
    pub fn icon_name(&self) -> (r: &'static str)
        ensures
            r@ == self.icon_text(),
    {
        match self {
            Page::Overview => "computer-symbolic",
            Page::Cpu => "cpu-symbolic",
            Page::Memory => "drive-harddisk-symbolic",
            Page::Processes => "process-working-symbolic",
            Page::Network => "network-wireless-symbolic",
            Page::Disks => "drive-harddisk-symbolic",
            Page::Gpu => "video-card-symbolic",
        }
    }
}

/// The pages in the order of the navigation.
pub open spec fn nav_order() -> Seq<Page> {
    seq![Page::Overview, Page::Cpu, Page::Gpu, Page::Memory, Page::Processes, Page::Network, Page::Disks]
}

/// The pages in the order of the navigation; the first is shown at start.
pub fn nav_pages() -> (r: Vec<Page>)
    ensures
        r@ == nav_order(),
{
    let r = vec![Page::Overview, Page::Cpu, Page::Gpu, Page::Memory, Page::Processes, Page::Network, Page::Disks];
    assert(r@ =~= nav_order());
    r
}

/// The window title: the application's name, and the page's name when a
/// page is shown.
pub open spec fn title_text(page: Option<Page>) -> Seq<char> {
    match page {
        Some(p) => "System Monitor — "@ + p.label_text(),
        None => "System Monitor"@,
    }
}

/// Renders the window title.
pub fn window_title(page: Option<Page>) -> (r: String)
    ensures
        r@ == title_text(page),
{
    match page {
        Some(p) => {
            let mut r = String::from_str("System Monitor — ");
            r.append(p.label());
            r
        },
        None => String::from_str("System Monitor"),
    }
}

/// The name shown for the graphics card: `No GPU detected` in place of an
/// empty name.
pub open spec fn shown_gpu_name(name: Seq<char>) -> Seq<char> {
    if name.len() == 0 { "No GPU detected"@ } else { name }
}

/// The name shown for the graphics card is never empty.
pub proof fn lemma_shown_gpu_name_not_empty(name: Seq<char>)
    ensures
        shown_gpu_name(name).len() > 0,
{
    reveal_strlit("No GPU detected");
}

/// The text of `o`, or `d` when there is none.
pub open spec fn text_or(o: Option<String>, d: Seq<char>) -> Seq<char> {
    match o {
        Some(s) => s@,
        None => d,
    }
}

fn string_or(o: Option<String>, d: &str) -> (r: String)
    ensures
        r@ == text_or(o, d@),
{
    match o {
        Some(s) => s,
        None => String::from_str(d),
    }
}

/// Whether a piece of a path between separators names nothing: it is
/// empty (repeated or trailing `/`) or the current directory `.`.
pub open spec fn is_skipped_piece(p: Seq<char>) -> bool {
    p.len() == 0 || p == seq!['.']
}

/// The last of the pieces `ps` that names something.
pub open spec fn last_named_piece(ps: Seq<Seq<char>>) -> Option<Seq<char>>
    decreases ps.len(),
{
    if ps.len() == 0 {
        None
    } else if is_skipped_piece(ps.last()) {
        last_named_piece(ps.drop_last())
    } else {
        Some(ps.last())
    }
}

/// The file name of a Unix path, as `Path::file_name` gives it: the last
/// piece when the path is split at `/`, empty and `.` pieces left out; none
/// when that piece is `..` or when no piece is left (an empty path, the root,
/// `.`).
pub open spec fn path_file_name(path: Seq<char>) -> Option<Seq<char>> {
    match last_named_piece(split_on(path, '/')) {
        Some(p) => if p == seq!['.', '.'] { None } else { Some(p) },
        None => None,
    }
}

/// The file name of the Unix path `path`, as `path_file_name` states it.
pub fn file_name(path: &str) -> (r: Option<String>)
    ensures
        match r {
            Some(n) => path_file_name(path@) == Some(n@),
            None => path_file_name(path@) is None,
        },
{
    let cs = chars_of(path);
    let n = cs.len();
    assert(cs@.subrange(0, n as int) =~= path@);
    let ghost mut done: Seq<Seq<char>> = Seq::empty();
    let mut found: Option<(usize, usize)> = None;
    let mut pos: usize = 0;
    loop
        invariant_except_break
            pos <= n,
            split_on(path@, '/') == done + split_on(cs@.subrange(pos as int, n as int), '/'),
        invariant
            n == cs@.len(),
            match found {
                Some((a, b)) => a <= b <= n && last_named_piece(done) == Some(cs@.subrange(a as int, b as int)),
                None => last_named_piece(done) is None,
            },
        ensures
            split_on(path@, '/') == done,
        decreases n - pos,
    {
        let r = next_piece(&cs, pos, n, '/');
        let ghost piece = cs@.subrange(pos as int, r as int);
        let skipped = r == pos || (r == pos + 1 && cs[pos] == '.');
        assert(skipped == is_skipped_piece(piece)) by {
            if r == pos + 1 {
                assert(piece =~= seq![cs@[pos as int]]);
            }
        }
        proof {
            let old_done = done;
            done = done.push(piece);
            assert(done.drop_last() =~= old_done);
        }
        if !skipped {
            found = Some((pos, r));
        }
        if r == n {
            assert(split_on(path@, '/') =~= done);
            break;
        }
        assert(split_on(path@, '/') =~= done + split_on(cs@.subrange(r + 1, n as int), '/'));
        pos = r + 1;
    }
    match found {
        Some((a, b)) => {
            let dots = b - a == 2 && cs[a] == '.' && cs[a + 1] == '.';
            assert(dots == (cs@.subrange(a as int, b as int) == seq!['.', '.'])) by {
                if b - a == 2 {
                    assert(seq![cs@[a as int], cs@[a + 1]] =~= cs@.subrange(a as int, b as int));
                }
            }
            if dots {
                None
            } else {
                Some(string_of_range(&cs, a, b))
            }
        },
        None => None,
    }
}

/// A plain name: not empty, no `/`, and neither `.` nor `..`.
pub open spec fn is_plain_name(n: Seq<char>) -> bool {
    &&& n.len() > 0
    &&& forall|i: int| 0 <= i < n.len() ==> n[i] != '/'
    &&& n != seq!['.']
    &&& n != seq!['.', '.']
}

/// The file name of a path that ends in `/` and a plain name is that name,
/// whatever comes before it; a plain name alone is its own file name.
pub proof fn lemma_file_name_is_last_name(p: Seq<char>, n: Seq<char>)
    requires
        is_plain_name(n),
    ensures
        path_file_name(p + seq!['/'] + n) == Some(n),
        path_file_name(n) == Some(n),
{
    lemma_split_join(p, '/', n);
    lemma_split_single(n, '/');
    let ps = split_on(p, '/') + seq![n];
    assert(ps.last() == n);
}

/// The file name of a path that ends in `/` and `..` is none, whatever comes
/// before it, and a trailing `/` or `/.` does not change the file name.
pub proof fn lemma_file_name_trailing(p: Seq<char>)
    ensures
        path_file_name(p + seq!['/', '.', '.']) is None,
        path_file_name(p + seq!['/']) == path_file_name(p),
        path_file_name(p + seq!['/', '.']) == path_file_name(p),
{
    let e = Seq::<char>::empty();
    lemma_split_join(p, '/', seq!['.', '.']);
    lemma_split_single(seq!['.', '.'], '/');
    assert(p + seq!['/', '.', '.'] =~= p + seq!['/'] + seq!['.', '.']);
    assert((split_on(p, '/') + seq![seq!['.', '.']]).last() == seq!['.', '.']);
    lemma_split_join(p, '/', e);
    lemma_split_single(e, '/');
    assert(p + seq!['/'] =~= p + seq!['/'] + e);
    assert((split_on(p, '/') + seq![e]).drop_last() =~= split_on(p, '/'));
    lemma_split_join(p, '/', seq!['.']);
    lemma_split_single(seq!['.'], '/');
    assert(p + seq!['/', '.'] =~= p + seq!['/'] + seq!['.']);
    assert((split_on(p, '/') + seq![seq!['.']]).drop_last() =~= split_on(p, '/'));
}

/// The name shown for a shell given its path and that path's file name:
/// the file name, or the whole path when it has none.
pub fn shell_display_name(shell: String, file_name: Option<String>) -> (r: String)
    ensures
        r@ == match file_name {
            Some(n) => n@,
            None => shell@,
        },
{
    match file_name {
        Some(n) => n,
        None => shell,
    }
}

/// The name shown for the shell at `shell`.
pub fn shell_name(shell: String) -> (r: String)
    ensures
        r@ == match path_file_name(shell@) {
            Some(n) => n,
            None => shell@,
        },
{
    let n = file_name(shell.as_str());
    shell_display_name(shell, n)
}

/// What the monitor knows of the machine, and how it shows it.
pub struct AppModel {
    /// Memory in use, in bytes.
    pub memory_used: u64,
    /// Memory in all, in bytes.
    pub memory_total: u64,
    /// The graphics card's name.
    pub gpu_name: String,
    /// The graphics card's memory in use, in MiB.
    pub gpu_memory_used: u64,
    /// The graphics card's memory in all, in MiB.
    pub gpu_memory_total: u64,
    /// The order of the process list.
    pub process_sort: ProcessSort,
    /// The machine's host name.
    pub hostname: String,
    /// The user's name.
    pub username: String,
    /// The operating system's name.
    pub os_name: String,
    /// The kernel's version.
    pub kernel: String,
    /// Seconds since the machine started.
    pub uptime: u64,
    /// The name of the user's shell.
    pub shell: String,
    /// The desktop environment or window manager.
    pub de_wm: String,
    /// The page shown.
    pub page: Page,
}

/// What the machine reports once, at start.
pub struct HostReadings {
    /// The host name, if the system gives one.
    pub hostname: Option<String>,
    /// The `USER` variable, if set (and Unicode).
    pub username: Option<String>,
    /// The `SHELL` variable, if set (and Unicode).
    pub shell: Option<String>,
    /// The `XDG_CURRENT_DESKTOP` variable, if set (and Unicode).
    pub current_desktop: Option<String>,
    /// The `DESKTOP_SESSION` variable, if set (and Unicode).
    pub desktop_session: Option<String>,
    /// The kernel version, if the system gives one.
    pub kernel: Option<String>,
    /// The content of the release file, if it could be read.
    pub os_release: Option<String>,
    /// Memory in all, in bytes.
    pub memory_total: u64,
    /// Seconds since the machine started.
    pub uptime: u64,
}

impl AppModel {
    /// The state at start: the readings with their fallbacks (`Unknown`
    /// for a missing host name, user, desktop or kernel, `/bin/sh` for a
    /// missing shell, whose file name is shown), no memory in use yet, no
    /// graphics card yet, processes by CPU usage, the overview shown.
    pub fn new(readings: HostReadings) -> (r: AppModel)
        ensures
            r.memory_used == 0,
            r.memory_total == readings.memory_total,
            r.gpu_name@ == Seq::<char>::empty(),
            r.gpu_memory_used == 0,
            r.gpu_memory_total == 0,
            r.process_sort == ProcessSort::Cpu,
            r.hostname@ == text_or(readings.hostname, "Unknown"@),
            r.username@ == text_or(readings.username, "Unknown"@),
            r.os_name@ == os_name_text(match readings.os_release { Some(c) => Some(c@), None => None }),
            r.kernel@ == text_or(readings.kernel, "Unknown"@),
            r.uptime == readings.uptime,
            r.shell@ == ({
                let path = text_or(readings.shell, "/bin/sh"@);
                match path_file_name(path) {
                    Some(n) => n,
                    None => path,
                }
            }),
            r.de_wm@ == match readings.current_desktop {
                Some(d) => d@,
                None => text_or(readings.desktop_session, "Unknown"@),
            },
            r.page == Page::Overview,
    {
        let HostReadings {
            hostname, username, shell, current_desktop, desktop_session, kernel, os_release,
            memory_total, uptime,
        } = readings;
        let os = match &os_release {
            Some(c) => os_name(Some(c.as_str())),
            None => os_name(None),
        };
        let shell_path = string_or(shell, "/bin/sh");
        let de_wm = match current_desktop {
            Some(d) => d,
            None => string_or(desktop_session, "Unknown"),
        };
        AppModel {
            memory_used: 0,
            memory_total,
            gpu_name: String::new(),
            gpu_memory_used: 0,
            gpu_memory_total: 0,
            process_sort: ProcessSort::Cpu,
            hostname: string_or(hostname, "Unknown"),
            username: string_or(username, "Unknown"),
            os_name: os,
            kernel: string_or(kernel, "Unknown"),
            uptime,
            shell: shell_name(shell_path),
            de_wm,
            page: Page::Overview,
        }
    }

    /// Handles a message. A sort message changes the order of the process
    /// list and nothing else; a refresh message changes nothing here and
    /// asks the caller to read the machine (`true`), whose readings then go
    /// to `apply_readings` and `refresh_gpu`.
    pub fn update(&mut self, message: Message) -> (refresh: bool)
        ensures
            match message {
                Message::RefreshSystemInfo => refresh && *final(self) == *old(self),
                Message::SortProcesses(sort) => !refresh
                    && *final(self) == (AppModel { process_sort: sort, ..*old(self) }),
            },
    {
        match message {
            Message::RefreshSystemInfo => true,
            Message::SortProcesses(sort) => {
                self.process_sort = sort;
                false
            },
        }
    }

    /// Takes in the memory and uptime read at a refresh.
    pub fn apply_readings(&mut self, memory_used: u64, memory_total: u64, uptime: u64)
        ensures
            *final(self) == (AppModel { memory_used, memory_total, uptime, ..*old(self) }),
    {
        self.memory_used = memory_used;
        self.memory_total = memory_total;
        self.uptime = uptime;
    }

    /// Takes in the graphics card's report, if one was read: its name and
    /// memory replace the old ones; then an empty name becomes
    /// `No GPU detected`.
    pub fn refresh_gpu(&mut self, reading: Option<GpuReading>)
        ensures
            ({
                let name = match reading {
                    Some(g) => g.name@,
                    None => old(self).gpu_name@,
                };
                final(self).gpu_name@ == shown_gpu_name(name)
            }),
            final(self).gpu_memory_used == match reading {
                Some(g) => g.memory_used,
                None => old(self).gpu_memory_used,
            },
            final(self).gpu_memory_total == match reading {
                Some(g) => g.memory_total,
                None => old(self).gpu_memory_total,
            },
            *final(self) == (AppModel {
                gpu_name: final(self).gpu_name,
                gpu_memory_used: final(self).gpu_memory_used,
                gpu_memory_total: final(self).gpu_memory_total,
                ..*old(self)
            }),
    {
        match reading {
            Some(g) => {
                self.gpu_name = g.name;
                self.gpu_memory_used = g.memory_used;
                self.gpu_memory_total = g.memory_total;
            },
            None => {},
        }
        if self.gpu_name.as_str().is_empty() {
            self.gpu_name = String::from_str("No GPU detected");
        }
    }

    /// Shows another page.
    pub fn on_nav_select(&mut self, page: Page)
        ensures
            *final(self) == (AppModel { page, ..*old(self) }),
    {
        self.page = page;
    }

    /// The window title for the page shown.
    pub fn title(&self) -> (r: String)
        ensures
            r@ == title_text(Some(self.page)),
    {
        window_title(Some(self.page))
    }

    /// Memory not in use, in bytes.
    pub fn memory_available(&self) -> (r: u64)
        requires
            self.memory_used <= self.memory_total,
        ensures
            r == self.memory_total - self.memory_used,
    {
        self.memory_total - self.memory_used
    }

    /// The heading of the overview: `{user}@{host}`.
    pub fn user_at_host(&self) -> (r: String)
        ensures
            r@ == self.username@ + "@"@ + self.hostname@,
    {
        let mut r = String::from_str(self.username.as_str());
        r.append("@");
        r.append(self.hostname.as_str());
        r
    }
}

/// The name shown for the processor: the first core's brand, or
/// `Unknown CPU` when there is no core.
pub fn cpu_name(first_brand: Option<&str>) -> (r: String)
    ensures
        r@ == match first_brand {
            Some(b) => b@,
            None => "Unknown CPU"@,
        },
{
    match first_brand {
        Some(b) => String::from_str(b),
        None => String::from_str("Unknown CPU"),
    }
}

/// The processor's frequency line: the first core's frequency (0 when
/// there is no core), `{mhz} MHz`.
pub fn frequency_text(first_frequency: Option<u64>) -> (r: String)
    ensures
        r@ == decimal(match first_frequency { Some(f) => f as nat, None => 0 }) + " MHz"@,
{
    let f = match first_frequency {
        Some(f) => f,
        None => 0,
    };
    let mut r = String::new();
    push_decimal(&mut r, f);
    r.append(" MHz");
    r
}

/// The label of a core in the per-core list: `Core {i}`.
pub fn core_label(i: usize) -> (r: String)
    ensures
        r@ == "Core "@ + decimal(i as nat),
{
    let mut r = String::from_str("Core ");
    push_decimal(&mut r, i as u64);
    r
}

} // verus!
