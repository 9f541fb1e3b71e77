use cosmicfetch::processes::{process_summary, shown_name, sort_processes, text_before, top_processes, ProcessInfo,
    ProcessSort};

fn p(name: &str, cpu: f32, memory: u64) -> ProcessInfo {
    ProcessInfo { pid: memory as u32, name: name.to_string(), cpu_key: cpu.to_bits(), memory }
}

fn names(v: &[ProcessInfo]) -> Vec<String> {
    v.iter().map(|x| x.name.clone()).collect()
}

#[test]
fn by_memory_largest_first() {
    let v = vec![p("a", 1.0, 10), p("b", 2.0, 30), p("c", 3.0, 20)];
    assert_eq!(names(&top_processes(v, ProcessSort::Memory)), ["b", "c", "a"]);
}

#[test]
fn by_cpu_highest_first() {
    let v = vec![p("a", 1.5, 10), p("b", 0.0, 30), p("c", 12.25, 20), p("d", 1.25, 0)];
    assert_eq!(names(&top_processes(v, ProcessSort::Cpu)), ["c", "a", "d", "b"]);
}

#[test]
fn by_name_ignoring_case() {
    let v = vec![p("zsh", 0.0, 1), p("Bash", 0.0, 1), p("apple", 0.0, 1), p("bar", 0.0, 1)];
    assert_eq!(names(&top_processes(v, ProcessSort::Alphabetical)), ["apple", "bar", "Bash", "zsh"]);
}

#[test]
fn ties_keep_their_order() {
    let v = vec![p("x", 1.0, 5), p("y", 1.0, 7), p("z", 1.0, 5), p("w", 1.0, 7)];
    assert_eq!(names(&top_processes(v, ProcessSort::Memory)), ["y", "w", "x", "z"]);
    let v = vec![p("B", 0.0, 1), p("b", 0.0, 2), p("A", 0.0, 3)];
    assert_eq!(names(&top_processes(v, ProcessSort::Alphabetical)), ["A", "B", "b"]);
}

#[test]
fn at_most_twenty() {
    let v: Vec<ProcessInfo> = (0..45u64).map(|i| p(&format!("p{}", i), 0.0, i)).collect();
    let top = top_processes(v, ProcessSort::Memory);
    assert_eq!(top.len(), 20);
    assert_eq!(top[0].memory, 44);
    assert_eq!(top[19].memory, 25);
    assert!(top_processes(Vec::new(), ProcessSort::Cpu).is_empty());
}

#[test]
fn same_as_std_stable_sort() {
    let names_in = ["kworker", "Xorg", "firefox", "Firefox", "systemd", "bash", "ßtool", "Émacs", "emacs"];
    let mut v: Vec<ProcessInfo> = Vec::new();
    for (i, n) in names_in.iter().enumerate() {
        v.push(p(n, (i % 3) as f32 * 2.5, ((i * 7) % 4) as u64 * 100));
    }
    for sort in [ProcessSort::Cpu, ProcessSort::Memory, ProcessSort::Alphabetical] {
        let mut expected: Vec<ProcessInfo> =
            v.iter().map(|x| ProcessInfo { pid: x.pid, name: x.name.clone(), cpu_key: x.cpu_key, memory: x.memory }).collect();
        match sort {
            ProcessSort::Cpu => expected.sort_by(|a, b| f32::from_bits(b.cpu_key).partial_cmp(&f32::from_bits(a.cpu_key)).unwrap()),
            ProcessSort::Memory => expected.sort_by(|a, b| b.memory.cmp(&a.memory)),
            ProcessSort::Alphabetical => expected.sort_by(|a, b| a.name.to_lowercase().cmp(&b.name.to_lowercase())),
        }
        let mut got: Vec<ProcessInfo> =
            v.iter().map(|x| ProcessInfo { pid: x.pid, name: x.name.clone(), cpu_key: x.cpu_key, memory: x.memory }).collect();
        sort_processes(&mut got, sort);
        assert_eq!(names(&got), names(&expected));
    }
}

#[test]
fn sorting_twice_changes_nothing() {
    let mut v = vec![p("c", 1.0, 3), p("a", 2.0, 3), p("b", 0.5, 9)];
    sort_processes(&mut v, ProcessSort::Alphabetical);
    let once = names(&v);
    sort_processes(&mut v, ProcessSort::Alphabetical);
    assert_eq!(names(&v), once);
}

#[test]
fn text_order_by_code_point() {
    assert!(text_before("abc", "abd"));
    assert!(text_before("ab", "abc"));
    assert!(!text_before("abc", "abc"));
    assert!(text_before("Z", "a"));
    assert!(text_before("z", "é"));
    assert!(!text_before("", ""));
}

#[test]
fn shown_names() {
    assert_eq!(shown_name("firefox"), "firefox");
    assert_eq!(shown_name("abcdefghijklmnopqrstuvwxyz0123"), "abcdefghijklmnopqrstuvwxy");
    assert_eq!(shown_name("ééééééééééééééééééééééééééé").chars().count(), 25);
}

#[test]
fn summary_line() {
    assert_eq!(process_summary(20, 312, ProcessSort::Cpu), "Showing 20 of 312 processes (sorted by CPU %)");
    assert_eq!(process_summary(3, 3, ProcessSort::Memory), "Showing 3 of 3 processes (sorted by Memory)");
    assert_eq!(process_summary(0, 0, ProcessSort::Alphabetical), "Showing 0 of 0 processes (sorted by Name)");
}
