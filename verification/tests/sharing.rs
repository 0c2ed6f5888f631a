use bambu_serve::detect::{answer_one, ProbeInput, ProbePort, ProbeTap};
use bambu_serve::files::FileEntry;
use bambu_serve::ftpd::{
    Arrival, Bound, FtpAction, FtpPort, FtpRelay, FtpReply, FtpTap, PassiveKind, Work,
};
use std::collections::BTreeMap;

// ── Files for clients ──

const CLIENT: &str = "10.0.0.5";

/// A printer's files, and a client that has something to send.
#[derive(Default)]
struct Printer {
    files: BTreeMap<String, Vec<u8>>,
    refuses: bool,
    uploads: Vec<(String, Vec<u8>)>,
    renames: Vec<(String, String)>,
    dirs: Vec<String>,
    arrivals: Vec<(&'static str, &'static [u8])>,
    incoming: Vec<u8>,
    staged: Vec<u8>,
    sent: Vec<u8>,
    replies: Vec<(u16, String)>,
}

impl FtpPort for Printer {
    fn reply(&mut self, code: u16, text: &str) -> Result<(), String> {
        self.replies.push((code, text.to_string()));
        Ok(())
    }
    fn bind(&mut self) -> Bound {
        Bound::Port(50_001)
    }
    fn keep(&mut self) {}
    fn accept(&mut self) -> Arrival {
        if self.arrivals.is_empty() {
            return Arrival::TimedOut;
        }
        let (host, bytes) = self.arrivals.remove(0);
        self.incoming = bytes.to_vec();
        Arrival::From(host.to_string())
    }
    fn secure(&mut self) -> Result<(), String> {
        Ok(())
    }
    fn stage(&mut self) -> Result<(), String> {
        self.staged.clear();
        Ok(())
    }
    fn read(&mut self) -> Result<Vec<u8>, String> {
        let n = self.incoming.len().min(5);
        Ok(self.incoming.drain(..n).collect())
    }
    fn append(&mut self, bytes: &[u8]) -> Result<(), String> {
        self.staged.extend_from_slice(bytes);
        Ok(())
    }
    fn flush(&mut self) -> Result<(), String> {
        Ok(())
    }
    fn shutdown(&mut self) -> Result<(), String> {
        Ok(())
    }
    fn send_staged(&mut self) -> Result<u64, String> {
        self.sent = self.staged.clone();
        Ok(self.sent.len() as u64)
    }
    fn send_text(&mut self, body: &str) -> Result<(), String> {
        self.sent = body.as_bytes().to_vec();
        Ok(())
    }
    fn upload(&mut self, remote: &str) -> Work<u64> {
        if self.refuses {
            return Ok(Err("no SD card".to_string()));
        }
        self.uploads.push((remote.to_string(), self.staged.clone()));
        Ok(Ok(self.staged.len() as u64))
    }
    fn download(&mut self, remote: &str) -> Work<u64> {
        match self.files.get(remote) {
            Some(bytes) => {
                self.staged = bytes.clone();
                Ok(Ok(bytes.len() as u64))
            }
            None => Ok(Err("no such file".to_string())),
        }
    }
    fn list(&mut self, _dir: &str, names_only: bool) -> Work<Vec<String>> {
        Ok(Ok(vec![if names_only {
            "a.gcode.3mf".to_string()
        } else {
            "-rw-rw-rw-   1 root  root     92763 Jun 13 18:11 a.gcode.3mf".to_string()
        }]))
    }
    fn entries(&mut self, dir: &str) -> Work<Vec<FileEntry>> {
        assert_eq!(dir, "/cache");
        Ok(Ok(vec![FileEntry {
            name: "a.gcode.3mf".to_string(),
            is_dir: false,
            size: 92763,
        }]))
    }
    fn delete(&mut self, path: &str) -> Work<()> {
        self.files.remove(path);
        Ok(Ok(()))
    }
    fn rename(&mut self, from: &str, to: &str) -> Work<()> {
        self.renames.push((from.to_string(), to.to_string()));
        Ok(Ok(()))
    }
    fn make_dir(&mut self, path: &str) -> Work<()> {
        self.dirs.push(format!("mkdir {path}"));
        Ok(Ok(()))
    }
    fn remove_dir(&mut self, path: &str) -> Work<()> {
        self.dirs.push(format!("rmdir {path}"));
        Ok(Ok(()))
    }
}

fn with_file(path: &str, bytes: &[u8]) -> Printer {
    let mut p = Printer::default();
    p.files.insert(path.to_string(), bytes.to_vec());
    p
}

/// Run commands in turn; the code and text each ends with, and the printer.
fn talk(relay: &FtpRelay, port: Printer, actions: Vec<FtpAction>) -> (Vec<(u16, String)>, Printer) {
    let mut tap = FtpTap::new(port);
    let mut listening = false;
    for a in &actions {
        relay
            .run(
                &mut tap,
                a,
                &mut listening,
                Some((10, 0, 0, 9)),
                &Some(CLIENT.to_string()),
            )
            .unwrap();
    }
    let port = tap.into_port();
    let ends = port.replies.iter().filter(|r| r.0 != 150).cloned().collect();
    (ends, port)
}

fn pasv() -> FtpAction {
    FtpAction::Passive(PassiveKind::Classic)
}

fn store(path: &str) -> FtpAction {
    FtpAction::Store {
        path: path.to_string(),
    }
}

fn retrieve(path: &str) -> FtpAction {
    FtpAction::Retrieve {
        path: path.to_string(),
    }
}

fn rename(from: &str, to: &str) -> FtpAction {
    FtpAction::Rename {
        from: from.to_string(),
        to: to.to_string(),
    }
}

fn said(code: u16) -> FtpAction {
    FtpAction::Reply(FtpReply {
        code,
        text: "ok".to_string(),
    })
}

#[test]
fn a_sliced_file_uploaded_to_the_relay_lands_on_the_printer() {
    let body: &[u8] = b"PK\x03\x04 pretend this is a sliced plate";
    let p = Printer {
        arrivals: vec![(CLIENT, body)],
        ..Printer::default()
    };
    let (ends, p) = talk(
        &FtpRelay::new("12345678"),
        p,
        vec![pasv(), store("/cache/plate.gcode.3mf")],
    );
    assert_eq!(ends[1].0, 226, "{ends:?}");
    assert_eq!(p.uploads.len(), 1);
    assert_eq!(p.uploads[0].0, "/cache/plate.gcode.3mf");
    assert_eq!(p.uploads[0].1, body, "byte-for-byte");
}

#[test]
fn a_printer_that_refuses_the_upload_is_reported_not_papered_over() {
    let p = Printer {
        refuses: true,
        arrivals: vec![(CLIENT, b"body")],
        ..Printer::default()
    };
    let (ends, _) = talk(
        &FtpRelay::new("12345678"),
        p,
        vec![pasv(), store("/cache/plate.gcode.3mf")],
    );
    assert_eq!(ends[1].0, 550, "{ends:?}");
    assert!(ends[1].1.contains("SD card"), "the printer's reason survives: {ends:?}");
}

#[test]
fn a_download_streams_the_printers_copy_back() {
    let mut p = with_file("/model/a.gcode.3mf", b"the real bytes");
    p.arrivals = vec![(CLIENT, b"")];
    let (ends, p) = talk(
        &FtpRelay::new("12345678"),
        p,
        vec![pasv(), retrieve("/model/a.gcode.3mf")],
    );
    assert_eq!(ends[1].0, 226, "{ends:?}");
    assert_eq!(p.sent, b"the real bytes");
}

#[test]
fn a_missing_file_is_a_550_with_no_empty_transfer() {
    let (ends, p) = talk(
        &FtpRelay::new("12345678"),
        Printer::default(),
        vec![retrieve("/model/nope.3mf")],
    );
    assert_eq!(ends[0].0, 550, "{ends:?}");
    assert_eq!(p.replies.len(), 1, "no transfer was announced");
}

#[test]
fn a_listing_relays_the_printers_own_lines() {
    let p = Printer {
        arrivals: vec![(CLIENT, b"")],
        ..Printer::default()
    };
    let list = FtpAction::List {
        path: "/cache".to_string(),
        names_only: false,
    };
    let (ends, p) = talk(&FtpRelay::new("12345678"), p, vec![pasv(), list]);
    assert_eq!(ends[1].0, 226, "{ends:?}");
    let text = String::from_utf8(p.sent).unwrap();
    assert!(text.contains("a.gcode.3mf"), "{text}");
    assert!(text.contains("Jun 13 18:11"), "verbatim, not re-rendered: {text}");
    assert!(text.ends_with("\r\n"), "lines are CRLF-terminated");
}

#[test]
fn size_comes_from_the_printers_listing() {
    let size = |path: &str| FtpAction::Size {
        path: path.to_string(),
    };
    let (ends, _) = talk(
        &FtpRelay::new("12345678"),
        Printer::default(),
        vec![size("/cache/a.gcode.3mf"), size("/cache/nope.3mf")],
    );
    assert_eq!(ends[0], (213, "92763".to_string()));
    assert_eq!(ends[1].0, 550);
}

#[test]
fn a_stranger_racing_the_data_port_is_dropped_and_the_real_transfer_still_works() {
    let p = Printer {
        arrivals: vec![
            ("127.0.0.2", b"attacker bytes"),
            (CLIENT, b"the real plate"),
        ],
        ..Printer::default()
    };
    let (ends, p) = talk(
        &FtpRelay::new("12345678"),
        p,
        vec![pasv(), store("/cache/plate.3mf")],
    );
    assert_eq!(ends[1].0, 226, "the stranger must not break the transfer: {ends:?}");
    assert_eq!(p.uploads.len(), 1);
    assert_eq!(p.uploads[0].1, b"the real plate");
}

#[test]
fn an_upload_can_be_renamed_into_place() {
    let p = Printer {
        arrivals: vec![(CLIENT, b"plate bytes")],
        ..Printer::default()
    };
    let (ends, p) = talk(
        &FtpRelay::new("12345678"),
        p,
        vec![
            pasv(),
            store("/cache/upload.tmp"),
            rename("/cache/upload.tmp", "/cache/plate.gcode.3mf"),
        ],
    );
    assert_eq!(ends[1].0, 226);
    assert_eq!(ends[2].0, 250);
    assert_eq!(
        p.renames,
        vec![(
            "/cache/upload.tmp".to_string(),
            "/cache/plate.gcode.3mf".to_string()
        )]
    );
}

#[test]
fn directories_are_relayed_and_read_only_refuses_them() {
    let mkd = || FtpAction::MakeDir {
        path: "/cache/sub".to_string(),
    };
    let rmd = FtpAction::RemoveDir {
        path: "/cache/sub".to_string(),
    };
    let (ends, p) = talk(&FtpRelay::new("1"), Printer::default(), vec![mkd(), rmd]);
    assert_eq!(ends[0].0, 257);
    assert_eq!(ends[1].0, 250);
    assert_eq!(p.dirs, vec!["mkdir /cache/sub", "rmdir /cache/sub"]);
    let (ends, p) = talk(
        &FtpRelay::read_only("1"),
        Printer::default(),
        vec![mkd(), rename("/a", "/b")],
    );
    assert_eq!(ends[0].0, 550);
    assert_eq!(ends[1].0, 550);
    assert!(p.dirs.is_empty() && p.renames.is_empty());
}

#[test]
fn a_refused_transfer_leaves_exactly_one_reply_on_the_control_stream() {
    let list = FtpAction::List {
        path: "/".to_string(),
        names_only: false,
    };
    let (_, p) = talk(
        &FtpRelay::new("1"),
        with_file("/model/a.3mf", b"bytes"),
        vec![
            store("/cache/x.3mf"),
            said(215),
            retrieve("/model/a.3mf"),
            said(215),
            list,
            said(257),
        ],
    );
    let codes: Vec<u16> = p.replies.iter().map(|r| r.0).collect();
    assert_eq!(codes, vec![425, 215, 425, 215, 425, 257]);
}

// ── Enquiries ──

/// A listener for enquiries: two bytes 0xa5, a length, JSON, two bytes 0xa7.
struct Listener {
    incoming: Vec<Vec<u8>>,
    asked: Option<serde_json::Value>,
    wrote: Vec<u8>,
}

fn frame(json: &str) -> Vec<u8> {
    let mut f = vec![0xa5, 0xa5];
    f.extend(((json.len() + 6) as u16).to_le_bytes());
    f.extend(json.as_bytes());
    f.extend([0xa7, 0xa7]);
    f
}

impl ProbePort for Listener {
    fn connect(&mut self, _addr: &str) -> Result<(), String> {
        Ok(())
    }
    fn decode(&mut self, buf: &Vec<u8>) -> Result<bool, String> {
        if buf.len() < 4 {
            return Ok(false);
        }
        let len = u16::from_le_bytes([buf[2], buf[3]]) as usize;
        if buf.len() < len {
            return Ok(false);
        }
        let json = &buf[4..len - 2];
        self.asked = Some(serde_json::from_slice(json).map_err(|e| e.to_string())?);
        Ok(true)
    }
    fn receive(&mut self) -> ProbeInput {
        if self.incoming.is_empty() {
            ProbeInput::Bytes(vec![])
        } else {
            ProbeInput::Bytes(self.incoming.remove(0))
        }
    }
    fn recognise(&mut self) -> Result<(), String> {
        let asked = self.asked.as_ref().unwrap();
        if asked["login"]["command"] == "detect" {
            Ok(())
        } else {
            Err(asked.to_string())
        }
    }
    fn answer(&mut self) -> Result<Vec<u8>, String> {
        let seq = &self.asked.as_ref().unwrap()["login"]["sequence_id"];
        Ok(frame(&format!(
            "{{\"login\":{{\"sequence_id\":{seq},\"connect\":\"lan\",\"bind\":\"free\"}}}}"
        )))
    }
    fn write(&mut self, bytes: &Vec<u8>) -> Result<(), String> {
        self.wrote.extend_from_slice(bytes);
        Ok(())
    }
    fn flush(&mut self) -> Result<(), String> {
        Ok(())
    }
}

/// What a peer that sends this is sent.
fn probed(incoming: Vec<Vec<u8>>) -> Vec<u8> {
    let mut tap = ProbeTap::new(Listener {
        incoming,
        asked: None,
        wrote: vec![],
    });
    let _ = answer_one(&mut tap, 4096);
    tap.into_port().wrote
}

#[test]
fn it_answers_the_probe_studio_actually_sends() {
    // The exact bytes that a client sends, in two reads.
    let probe =
        b"\xa5\xa5\x3a\x00{\"login\":{\"command\":\"detect\",\"sequence_id\":\"20004\"}}\xa7\xa7";
    let wrote = probed(vec![probe[..7].to_vec(), probe[7..].to_vec()]);
    let json: serde_json::Value = serde_json::from_slice(&wrote[4..wrote.len() - 2]).unwrap();
    assert_eq!(json["login"]["sequence_id"], "20004");
    assert_eq!(json["login"]["connect"], "lan");
    assert_eq!(json["login"]["bind"], "free");
}

#[test]
fn a_peer_that_connects_and_says_nothing_is_just_dropped() {
    assert!(probed(vec![]).is_empty());
}

#[test]
fn a_frame_that_is_not_a_detect_gets_no_invented_answer() {
    assert!(probed(vec![frame("{\"login\":{\"command\":\"bind\"}}")]).is_empty());
}
