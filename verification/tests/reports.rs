use cuda_monitor::http::{http_body, http_get, http_outcome, http_request, HttpExchange};
use cuda_monitor::models::{
    names_in, parse_app_line, parse_compute_apps, parse_ollama_reply, parse_pid,
    query_compute_apps, query_loaded_model,
};
use cuda_monitor::smi::{
    fields_of, output_text, parse_gpu_report, query_nvidia_smi, CommandOutcome,
};

fn finished(success: bool, stdout: &[u8], stderr: &[u8]) -> CommandOutcome {
    CommandOutcome::Finished { success, stdout: stdout.to_vec(), stderr: stderr.to_vec() }
}

fn gpu_error(report: &str) -> String {
    match parse_gpu_report(report) {
        Ok(_) => panic!("an error was due"),
        Err(e) => e,
    }
}

#[test]
fn the_first_line_gives_five_readings() {
    let g = match parse_gpu_report("37, 5120, 16380, 54, 98.12\n0, 1, 2, 3, 4\n") {
        Ok(g) => g,
        Err(e) => panic!("{e}"),
    };
    assert_eq!(g.util, "37");
    assert_eq!(g.vram_used_mb, "5120");
    assert_eq!(g.vram_total_mb, "16380");
    assert_eq!(g.temp_c, "54");
    assert_eq!(g.power_w, "98.12");
}

#[test]
fn bad_gpu_reports_are_named() {
    assert_eq!(gpu_error(""), "no GPU data");
    assert_eq!(gpu_error("\n"), "unexpected nvidia-smi output: ");
    assert_eq!(gpu_error("1, 2, 3, 4\r\n"), "unexpected nvidia-smi output: 1, 2, 3, 4");
    assert_eq!(gpu_error(" no devices \r"), "unexpected nvidia-smi output:  no devices \r");
}

#[test]
fn a_command_outcome_becomes_readings_or_an_error() {
    let ok = query_nvidia_smi(&finished(true, b" 1,2 ,\t3,4,5,6", b"ignored"));
    let g = match ok {
        Ok(g) => g,
        Err(e) => panic!("{e}"),
    };
    assert_eq!((g.util.as_str(), g.vram_used_mb.as_str(), g.power_w.as_str()), ("1", "2", "5"));
    match query_nvidia_smi(&finished(false, b"1,2,3,4,5", b"  driver not loaded\n")) {
        Ok(_) => panic!("an error was due"),
        Err(e) => assert_eq!(e, "driver not loaded"),
    }
    match query_nvidia_smi(&CommandOutcome::NotStarted("not found".to_string())) {
        Ok(_) => panic!("an error was due"),
        Err(e) => assert_eq!(e, "nvidia-smi failed: not found"),
    }
}

#[test]
fn bytes_that_are_no_text_are_replaced() {
    assert_eq!(output_text(&finished(true, b"a\xffb", b"")), Ok("a\u{fffd}b".to_string()));
    assert_eq!(output_text(&finished(true, "é—".as_bytes(), b"")), Ok("é—".to_string()));
}

#[test]
fn fields_lose_their_white_space() {
    assert_eq!(fields_of(" a ,\u{a0}b\u{2003},, c d "), vec!["a", "b", "", "c d"]);
    assert_eq!(fields_of(""), vec![""]);
}

const REPLY: &str = r#"{"models":[{"name":"gemma4:12b-tool","model":"gemma4:12b-tool","size":9,"details":{"family":"gemma"}},{"name" : 	"qwen:7b"}]}"#;

#[test]
fn an_ollama_reply_names_its_models() {
    let (label, processes) = parse_ollama_reply(REPLY);
    assert_eq!(label, "gemma4:12b-tool + qwen:7b");
    assert_eq!(processes.len(), 2);
    assert_eq!(processes[0].pid, 0);
    assert_eq!(processes[0].name, "gemma4:12b-tool");
    assert_eq!(processes[0].model, "gemma4:12b-tool");
    assert_eq!(processes[0].used_memory_mb, None);
    assert_eq!(processes[1].model, "qwen:7b");
}

#[test]
fn an_idle_ollama_is_told_so() {
    let (label, processes) = parse_ollama_reply(r#"{"models":[]}"#);
    assert_eq!(label, "idle — nothing in VRAM");
    assert!(processes.is_empty());
}

#[test]
fn neighbours_of_the_same_name_are_shown_once() {
    let (label, processes) = parse_ollama_reply(r#""name":"a" "name":"a" "name":"b" "name":"a""#);
    assert_eq!(label, "a + b + a");
    assert_eq!(processes.len(), 4);
}

#[test]
fn odd_keys_are_passed_over() {
    assert_eq!(names_in(r#""name" "x" "name":"y""#), vec!["y"]);
    assert_eq!(names_in(r#""name": 5, "name":"y""#), vec!["y"]);
    assert_eq!(names_in("\"name\":\n\"x\""), Vec::<String>::new());
    assert_eq!(names_in(r#""name":"open"#), Vec::<String>::new());
    assert_eq!(names_in(r#""name":"" "names":"z""#), vec![""]);
    assert_eq!(names_in("\"name\":\"modèle\""), vec!["modèle"]);
    assert_eq!(names_in(r#""name"#), Vec::<String>::new());
}

#[test]
fn names_written_into_a_reply_are_read_back() {
    let names = ["llama3:8b", "", "phi — 3", "name"];
    let mut reply = String::new();
    for name in names {
        reply.push_str(&format!("{{\"name\":\"{name}\"}},"));
    }
    reply.push_str("end");
    assert_eq!(names_in(&reply), names);
}

#[test]
fn process_ids_are_read_in_decimal() {
    assert_eq!(parse_pid("1234"), 1234);
    assert_eq!(parse_pid("+12"), 12);
    assert_eq!(parse_pid("0007"), 7);
    assert_eq!(parse_pid("4294967295"), u32::MAX);
    assert_eq!(parse_pid("4294967296"), 0);
    assert_eq!(parse_pid("99999999999999999999999"), 0);
    assert_eq!(parse_pid(""), 0);
    assert_eq!(parse_pid("+"), 0);
    assert_eq!(parse_pid("-1"), 0);
    assert_eq!(parse_pid("12a"), 0);
    for text in ["0", "17", "+3", "++3", "1 ", "٣", "4294967294", "00000000000042"] {
        assert_eq!(parse_pid(text), text.parse::<u32>().unwrap_or(0));
    }
}

#[test]
fn a_line_of_the_process_list_is_read() {
    let p = match parse_app_line("4242, /usr/bin/python3.12 , 512") {
        Some(p) => p,
        None => panic!("a process was due"),
    };
    assert_eq!(p.pid, 4242);
    assert_eq!(p.name, "python3.12");
    assert_eq!(p.model, "python3.12");
    assert_eq!(p.used_memory_mb, Some("512".to_string()));
    assert!(parse_app_line("4242, python").is_none());
    assert!(parse_app_line("").is_none());
}

#[test]
fn the_process_list_gives_a_sorted_label() {
    let report = "12, /opt/zeta, 1\nbad line\nx, alpha, 2\r\n13, /a/zeta, 3\n";
    let (label, processes) = parse_compute_apps(report);
    assert_eq!(label, "alpha + zeta");
    let found: Vec<(u32, &str)> = processes.iter().map(|p| (p.pid, p.name.as_str())).collect();
    assert_eq!(found, vec![(12, "zeta"), (0, "alpha"), (13, "zeta")]);
    assert_eq!(processes[1].used_memory_mb, Some("2".to_string()));
}

#[test]
fn no_process_is_told_so() {
    let (label, processes) = parse_compute_apps("\n");
    assert_eq!(label, "idle — no model");
    assert!(processes.is_empty());
}

#[test]
fn a_failed_process_list_is_an_error() {
    match query_compute_apps(&finished(false, b"", b" busy ")) {
        Ok(_) => panic!("an error was due"),
        Err(e) => assert_eq!(e, "busy"),
    }
}

#[test]
fn ollama_comes_before_nvidia_smi() {
    let (label, _) = match query_loaded_model(Ok(REPLY.to_string()), || panic!("not asked")) {
        Ok(r) => r,
        Err(e) => panic!("{e}"),
    };
    assert_eq!(label, "gemma4:12b-tool + qwen:7b");
    let (label, processes) = match query_loaded_model(Err("refused".to_string()), || {
        finished(true, b"9, /bin/llama-server, 100\n", b"")
    }) {
        Ok(r) => r,
        Err(e) => panic!("{e}"),
    };
    assert_eq!(label, "llama-server");
    assert_eq!(processes[0].pid, 9);
    match query_loaded_model(Err("refused".to_string()), || {
        CommandOutcome::NotStarted("missing".to_string())
    }) {
        Ok(_) => panic!("an error was due"),
        Err(e) => assert_eq!(e, "nvidia-smi failed: missing"),
    }
}

#[test]
fn the_request_is_spelled_out() {
    assert_eq!(
        http_request("127.0.0.1:11434", "/api/ps"),
        "GET /api/ps HTTP/1.1\r\nHost: 127.0.0.1:11434\r\nConnection: close\r\n\r\n"
    );
}

#[test]
fn the_body_follows_the_first_blank_line() {
    assert_eq!(http_body("HTTP/1.1 200 OK\r\nA: b\r\n\r\n{}\r\n\r\nx"), "{}\r\n\r\nx");
    assert_eq!(http_body("no head"), "no head");
    assert_eq!(http_body("a\r\n\r\n"), "");
    assert_eq!(http_body("\r\n\r\r\n\r\nz"), "z");
}

#[test]
fn an_exchange_gives_a_body_or_an_error() {
    let got = http_get("h:1", "/p", |request| {
        assert_eq!(request, "GET /p HTTP/1.1\r\nHost: h:1\r\nConnection: close\r\n\r\n");
        HttpExchange::Received(b"HTTP/1.1 200 OK\r\n\r\nhi \xff".to_vec())
    });
    assert_eq!(got, Ok("hi \u{fffd}".to_string()));
    let refused = HttpExchange::NotConnected("refused".to_string());
    assert_eq!(http_outcome("h:1", &refused), Err("connect h:1: refused".to_string()));
    let stuck = HttpExchange::NotWritten("stuck".to_string());
    assert_eq!(http_outcome("h:1", &stuck), Err("write: stuck".to_string()));
    let late = HttpExchange::NotRead("late".to_string());
    assert_eq!(http_outcome("h:1", &late), Err("read: late".to_string()));
}
