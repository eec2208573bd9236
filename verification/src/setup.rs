//! What the setup commands run, decide and write.

use crate::display::volume_percent;
use crate::display::volume_text;
use crate::text::chars_of;
use crate::text::contains;
use crate::text::decimal;
use crate::text::decimal_text;
use crate::text::has_part;
use crate::text::same;
use crate::text::slices;
use crate::text::texts;
use crate::text::trim;
use crate::text::trimmed;
use crate::value::Value;
use vstd::prelude::*;
use vstd::string::*;

verus! {

/// Owned copies of some texts.
pub fn owned(parts: Vec<&str>) -> (list: Vec<String>)
    ensures
        texts(list@) == slices(parts@),
{
    let mut list: Vec<String> = Vec::new();
    let mut i: usize = 0;
    while i < parts.len()
        invariant
            i <= parts.len(),
            list@.len() == i,
            forall|j: int| 0 <= j < i ==> (#[trigger] list@[j])@ == parts@[j]@,
        decreases parts.len() - i,
    {
        list.push(parts[i].to_owned());
        i += 1;
    }
    assert(texts(list@) =~= slices(parts@));
    list
}

/// Whether a list of sound cards names the device.
pub fn has_card(cards: &str) -> (yes: bool)
    ensures
        yes == has_part(cards@, "Sound BlasterX G6"@),
{
    contains(cards, "Sound BlasterX G6")
}

/// The arguments that make the mixer tool record from the external microphone.
pub fn select_mic_args() -> (args: Vec<String>)
    ensures
        texts(args@) == seq![
            "-c"@,
            "G6"@,
            "-q"@,
            "sset"@,
            "PCM Capture Source"@,
            "External Mic"@,
        ],
{
    let args = owned(vec!["-c", "G6", "-q", "sset", "PCM Capture Source", "External Mic"]);
    assert(texts(args@) =~= seq![
        "-c"@,
        "G6"@,
        "-q"@,
        "sset"@,
        "PCM Capture Source"@,
        "External Mic"@,
    ]);
    args
}

/// The arguments that make the mixer tool set the external microphone to its full strength.
pub fn raise_mic_args() -> (args: Vec<String>)
    ensures
        texts(args@) == seq![
            "-c"@,
            "G6"@,
            "-q"@,
            "sset"@,
            "External Mic"@,
            "Capture"@,
            "100%"@,
            "cap"@,
        ],
{
    let args = owned(vec!["-c", "G6", "-q", "sset", "External Mic", "Capture", "100%", "cap"]);
    assert(texts(args@) =~= seq![
        "-c"@,
        "G6"@,
        "-q"@,
        "sset"@,
        "External Mic"@,
        "Capture"@,
        "100%"@,
        "cap"@,
    ]);
    args
}

/// The arguments that make the service manager read its unit files again.
pub fn reload_args() -> (args: Vec<String>)
    ensures
        texts(args@) == seq!["--user"@, "daemon-reload"@],
{
    let args = owned(vec!["--user", "daemon-reload"]);
    assert(texts(args@) =~= seq!["--user"@, "daemon-reload"@]);
    args
}

/// The arguments that enable and start the watch service.
pub fn enable_args() -> (args: Vec<String>)
    ensures
        texts(args@) == seq!["--user"@, "enable"@, "--now"@, "g6-cli-watch.service"@],
{
    let args = owned(vec!["--user", "enable", "--now", "g6-cli-watch.service"]);
    assert(texts(args@) =~= seq!["--user"@, "enable"@, "--now"@, "g6-cli-watch.service"@]);
    args
}

/// The arguments that stop and disable the watch service.
pub fn disable_args() -> (args: Vec<String>)
    ensures
        texts(args@) == seq!["--user"@, "disable"@, "--now"@, "g6-cli-watch.service"@],
{
    let args = owned(vec!["--user", "disable", "--now", "g6-cli-watch.service"]);
    assert(texts(args@) =~= seq!["--user"@, "disable"@, "--now"@, "g6-cli-watch.service"@]);
    args
}

/// The arguments that show the state of the watch service.
pub fn status_args() -> (args: Vec<String>)
    ensures
        texts(args@) == seq![
            "--user"@,
            "status"@,
            "g6-cli-watch.service"@,
            "--no-pager"@,
        ],
{
    let args = owned(vec!["--user", "status", "g6-cli-watch.service", "--no-pager"]);
    assert(texts(args@) =~= seq![
        "--user"@,
        "status"@,
        "g6-cli-watch.service"@,
        "--no-pager"@,
    ]);
    args
}

/// The arguments that list the nodes of a kind.
pub fn list_args(kind: &str) -> (args: Vec<String>)
    ensures
        texts(args@) == seq!["list"@, "short"@, kind@],
{
    let args = owned(vec!["list", "short", kind]);
    assert(texts(args@) =~= seq!["list"@, "short"@, kind@]);
    args
}

/// The arguments that set the volume of a node.
pub fn volume_args(verb: &str, target: &str, volume: Value) -> (args: Vec<String>)
    ensures
        texts(args@) == seq![
            verb@,
            target@,
            decimal(volume_percent(volume) as nat) + "%"@,
        ],
{
    let percent = volume_text(volume);
    let args = owned(vec![verb, target, percent.as_str()]);
    assert(texts(args@) =~= seq![
        verb@,
        target@,
        decimal(volume_percent(volume) as nat) + "%"@,
    ]);
    args
}

/// The arguments that record from the default source for some seconds, without the file.
pub fn record_args(seconds: u32) -> (args: Vec<String>)
    ensures
        texts(args@) == seq!["-d"@, decimal(seconds as nat), "-f"@, "cd"@, "-q"@],
{
    let duration = decimal_text(seconds as u128);
    let args = owned(vec!["-d", duration.as_str(), "-f", "cd", "-q"]);
    assert(texts(args@) =~= seq!["-d"@, decimal(seconds as nat), "-f"@, "cd"@, "-q"@]);
    args
}

/// The arguments that play the default source through the default sink.
pub fn loopback_args() -> (args: Vec<String>)
    ensures
        texts(args@) == seq![
            "load-module"@,
            "module-loopback"@,
            "source=@DEFAULT_SOURCE@"@,
            "sink=@DEFAULT_SINK@"@,
            "latency_msec=50"@,
        ],
{
    let args = owned(vec![
        "load-module",
        "module-loopback",
        "source=@DEFAULT_SOURCE@",
        "sink=@DEFAULT_SINK@",
        "latency_msec=50",
    ]);
    assert(texts(args@) =~= seq![
        "load-module"@,
        "module-loopback"@,
        "source=@DEFAULT_SOURCE@"@,
        "sink=@DEFAULT_SINK@"@,
        "latency_msec=50"@,
    ]);
    args
}

/// The arguments that unload a module.
pub fn unload_args(module: u32) -> (args: Vec<String>)
    ensures
        texts(args@) == seq!["unload-module"@, decimal(module as nat)],
{
    let id = decimal_text(module as u128);
    let args = owned(vec!["unload-module", id.as_str()]);
    assert(texts(args@) =~= seq!["unload-module"@, decimal(module as nat)]);
    args
}

/// The arguments that stream the samples of a source, or of the default source.
pub open spec fn stream(device: Option<Seq<char>>) -> Seq<Seq<char>> {
    let fixed = seq!["--format=s16le"@, "--rate=44100"@, "--channels=1"@, "--latency-msec=30"@];
    match device {
        Some(name) => fixed.push("--device="@ + name),
        None => fixed,
    }
}

/// The arguments that stream the samples of a source, or of the default source.
pub fn stream_args(device: Option<&str>) -> (args: Vec<String>)
    ensures
        texts(args@) == stream(
            match device {
                Some(name) => Some(name@),
                None => None,
            },
        ),
{
    let mut args = owned(
        vec!["--format=s16le", "--rate=44100", "--channels=1", "--latency-msec=30"],
    );
    let ghost fixed = stream(None);
    assert(texts(args@) =~= fixed);
    if let Some(name) = device {
        let mut option = "--device=".to_owned();
        option.append(name);
        let ghost before = args@;
        args.push(option);
        assert(texts(args@) =~= texts(before).push(option@));
    }
    args
}

/// The files that the speaker test plays, in their order.
pub fn speaker_files() -> (files: Vec<String>)
    ensures
        texts(files@) == seq!["Front_Left.wav"@, "Front_Right.wav"@],
{
    let files = owned(vec!["Front_Left.wav", "Front_Right.wav"]);
    assert(texts(files@) =~= seq!["Front_Left.wav"@, "Front_Right.wav"@]);
    files
}

/// Where a sample file lies.
pub fn sample_path(file: &str) -> (path: String)
    ensures
        path@ == "/usr/share/sounds/alsa/"@ + file@,
{
    let mut path = "/usr/share/sounds/alsa/".to_owned();
    path.append(file);
    path
}

/// The unit file of the watch service, for the program at `exe`.
pub open spec fn unit_file(exe: Seq<char>) -> Seq<char> {
    "[Unit]\nDescription=Sound BlasterX G6 -- keep capture source on External Mic\nAfter=pipewire-pulse.service pulseaudio.service\n\n[Service]\nType=simple\nExecStart="@
        + exe
        + " watch\nRestart=always\nRestartSec=2\n\n[Install]\nWantedBy=default.target\n"@
}

/// The unit file of the watch service, for the program at `exe`.
pub fn unit_text(exe: &str) -> (text: String)
    ensures
        text@ == unit_file(exe@),
{
    let mut text =
        "[Unit]\nDescription=Sound BlasterX G6 -- keep capture source on External Mic\nAfter=pipewire-pulse.service pulseaudio.service\n\n[Service]\nType=simple\nExecStart=".to_owned();
    text.append(exe);
    text.append(" watch\nRestart=always\nRestartSec=2\n\n[Install]\nWantedBy=default.target\n");
    text
}

/// The script that installs the device rule from a temporary file and makes the system read it.
pub open spec fn install_script(temp: Seq<char>) -> Seq<char> {
    "/usr/bin/install -m644 '"@ + temp
        + "' '/etc/udev/rules.d/91-soundblaster-g6.rules' && /usr/bin/udevadm control --reload-rules && /usr/bin/udevadm trigger"@
}

/// The script that installs the device rule from a temporary file and makes the system read it.
pub fn install_text(temp: &str) -> (script: String)
    ensures
        script@ == install_script(temp@),
{
    let mut script = "/usr/bin/install -m644 '".to_owned();
    script.append(temp);
    script.append(
        "' '/etc/udev/rules.d/91-soundblaster-g6.rules' && /usr/bin/udevadm control --reload-rules && /usr/bin/udevadm trigger",
    );
    script
}

/// Whether to install the device rule if it is missing.
#[derive(Clone, Copy, Debug, PartialEq, Eq, Structural)]
pub enum UdevChoice {
    Yes,
    No,
    Ask,
}

/// What the two flags of the command choose.
pub fn udev_choice(yes: bool, no: bool) -> (choice: UdevChoice)
    ensures
        choice == (if yes {
            UdevChoice::Yes
        } else if no {
            UdevChoice::No
        } else {
            UdevChoice::Ask
        }),
{
    if yes {
        UdevChoice::Yes
    } else if no {
        UdevChoice::No
    } else {
        UdevChoice::Ask
    }
}

/// What is to be done about the device rule.
#[derive(Clone, Copy, Debug, PartialEq, Eq, Structural)]
pub enum UdevStep {
    /// It is installed already.
    Keep,
    /// It is to be installed.
    Install,
    /// It is left out.
    Skip,
    /// The user is to be asked.
    Prompt,
}

/// What is to be done about the device rule.
pub fn udev_step(installed: bool, choice: UdevChoice) -> (step: UdevStep)
    ensures
        step == (if installed {
            UdevStep::Keep
        } else {
            match choice {
                UdevChoice::Yes => UdevStep::Install,
                UdevChoice::No => UdevStep::Skip,
                UdevChoice::Ask => UdevStep::Prompt,
            }
        }),
{
    if installed {
        return UdevStep::Keep;
    }
    match choice {
        UdevChoice::Yes => UdevStep::Install,
        UdevChoice::No => UdevStep::Skip,
        UdevChoice::Ask => UdevStep::Prompt,
    }
}

/// A character with the letters of the English alphabet in lower case.
pub open spec fn lower(c: char) -> char {
    if 'A' <= c <= 'Z' {
        (c as u32 + 32) as char
    } else {
        c
    }
}

/// A text with the letters of the English alphabet in lower case.
pub open spec fn lowered(s: Seq<char>) -> Seq<char> {
    s.map_values(|c: char| lower(c))
}

/// Whether an answer means yes.
pub open spec fn means_yes(answer: Seq<char>) -> bool {
    lowered(trimmed(answer)) == "y"@ || lowered(trimmed(answer)) == "yes"@
}

/// Whether an answer means yes.
pub fn is_affirmative(answer: &str) -> (yes: bool)
    ensures
        yes == means_yes(answer@),
{
    let core = chars_of(trim(answer));
    let ghost t = lowered(core@);
    proof {
        reveal_strlit("y");
        reveal_strlit("yes");
        assert(t.len() == core@.len());
        assert(forall|i: int| 0 <= i < t.len() ==> #[trigger] t[i] == lower(core@[i]));
        assert(t =~= "y"@ <==> t.len() == 1 && t[0] == 'y');
        assert(t =~= "yes"@ <==> t.len() == 3 && t[0] == 'y' && t[1] == 'e' && t[2] == 's');
        assert(forall|c: char| lower(c) == 'y' <==> c == 'y' || c == 'Y');
        assert(forall|c: char| lower(c) == 'e' <==> c == 'e' || c == 'E');
        assert(forall|c: char| lower(c) == 's' <==> c == 's' || c == 'S');
    }
    let n: usize = core.len();
    if n == 1 {
        core[0] == 'y' || core[0] == 'Y'
    } else if n == 3 {
        (core[0] == 'y' || core[0] == 'Y') && (core[1] == 'e' || core[1] == 'E') && (core[2] == 's'
            || core[2] == 'S')
    } else {
        false
    }
}

/// How a command gets the rights that it needs.
#[derive(Clone, Copy, Debug, PartialEq, Eq, Structural)]
pub enum Elevation {
    Pkexec,
    Sudo,
}

/// How a command gets the rights that it needs: through a graphical agent if one is running,
/// else through the terminal if there is one.
pub fn elevation_tool(graphical: bool, agent_running: bool, tty: bool) -> (tool: Option<Elevation>)
    ensures
        tool == (if graphical && agent_running {
            Some(Elevation::Pkexec)
        } else if tty {
            Some(Elevation::Sudo)
        } else {
            None
        }),
{
    if graphical && agent_running {
        Some(Elevation::Pkexec)
    } else if tty {
        Some(Elevation::Sudo)
    } else {
        None
    }
}

/// Whether a name in the process directory is that of a process: nothing but digits.
pub open spec fn names_process(name: Seq<char>) -> bool {
    forall|i: int| 0 <= i < name.len() ==> '0' <= #[trigger] name[i] <= '9'
}

/// Whether a name in the process directory is that of a process.
pub fn is_process(name: &str) -> (yes: bool)
    ensures
        yes == names_process(name@),
{
    let chars = chars_of(name);
    let mut i: usize = 0;
    while i < chars.len()
        invariant
            i <= chars.len(),
            chars@ == name@,
            forall|j: int| 0 <= j < i ==> '0' <= #[trigger] name@[j] <= '9',
        decreases chars.len() - i,
    {
        if !('0' <= chars[i] && chars[i] <= '9') {
            assert(name@[i as int] == chars@[i as int]);
            return false;
        }
        i += 1;
    }
    true
}

/// The names of the agents that can ask for a password, as far as the system keeps them.
pub open spec fn agents() -> Seq<Seq<char>> {
    seq![
        "polkit-gnome-au"@,
        "polkit-kde-auth"@,
        "polkit-mate-aut"@,
        "hyprpolkitagent"@,
        "lxqt-policykit-"@,
        "lxpolkit"@,
    ]
}

/// Whether a process, by its name as the system prints it, is an agent that can ask for a
/// password.
pub fn is_polkit_agent(comm: &str) -> (yes: bool)
    ensures
        yes == agents().contains(trimmed(comm@)),
{
    let name = trim(comm);
    let ghost all = agents();
    proof {
        assert(all[0] == "polkit-gnome-au"@);
        assert(all[1] == "polkit-kde-auth"@);
        assert(all[2] == "polkit-mate-aut"@);
        assert(all[3] == "hyprpolkitagent"@);
        assert(all[4] == "lxqt-policykit-"@);
        assert(all[5] == "lxpolkit"@);
    }
    same(name, "polkit-gnome-au") || same(name, "polkit-kde-auth") || same(name, "polkit-mate-aut")
        || same(name, "hyprpolkitagent") || same(name, "lxqt-policykit-") || same(name, "lxpolkit")
}

/// Only a lone `y` and the word `yes` mean yes, in small or capital letters; an answer of
/// another length means no.
pub proof fn law_what_means_yes(answer: Seq<char>)
    ensures
        ({
            let s = trimmed(answer);
            means_yes(answer) <==> {
                ||| s.len() == 1 && (s[0] == 'y' || s[0] == 'Y')
                ||| s.len() == 3 && (s[0] == 'y' || s[0] == 'Y') && (s[1] == 'e' || s[1] == 'E')
                    && (s[2] == 's' || s[2] == 'S')
            }
        }),
{
    reveal_strlit("y");
    reveal_strlit("yes");
    let s = trimmed(answer);
    let low = lowered(s);
    assert forall|c: char|
        (#[trigger] lower(c) == 'y' <==> c == 'y' || c == 'Y') && (lower(c) == 'e' <==> c == 'e' || c
            == 'E') && (lower(c) == 's' <==> c == 's' || c == 'S') by {
        if 'A' <= c <= 'Z' {
            assert(lower(c) as u32 == c as u32 + 32);
        }
    }
    assert(low.len() == s.len());
    if s.len() == 1 {
        assert(low[0] == lower(s[0]));
        assert((low =~= "y"@) <==> low[0] == 'y');
    }
    if s.len() == 3 {
        assert(low[0] == lower(s[0]) && low[1] == lower(s[1]) && low[2] == lower(s[2]));
        assert((low =~= "yes"@) <==> low[0] == 'y' && low[1] == 'e' && low[2] == 's');
    }
}

/// A stream asks for one channel of whole samples, and names a device only where one is given.
pub proof fn law_stream_names_its_device(name: Seq<char>)
    ensures
        stream(None) == seq![
            "--format=s16le"@,
            "--rate=44100"@,
            "--channels=1"@,
            "--latency-msec=30"@,
        ],
        stream(Some(name)) == stream(None).push("--device="@ + name),
{
}

/// A name of digits is that of a process, and a name with anything else in it is not.
pub proof fn law_processes_have_numbers(a: Seq<char>, c: char, b: Seq<char>)
    requires
        names_process(a),
        names_process(b),
    ensures
        names_process(a + seq![c] + b) <==> '0' <= c <= '9',
{
    let s = a + seq![c] + b;
    assert(s[a.len() as int] == c);
    if '0' <= c <= '9' {
        assert forall|i: int| 0 <= i < s.len() implies '0' <= #[trigger] s[i] <= '9' by {
            if i < a.len() {
                assert(s[i] == a[i]);
            } else if i > a.len() {
                assert(s[i] == b[i - a.len() - 1]);
            }
        }
    }
}

} // verus!
