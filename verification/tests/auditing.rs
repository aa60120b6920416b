use execlog::decoder::split_log;
use execlog::fingerprint::MalformedDigest;
use execlog::hexcode::decode_hex;
use execlog::outputs::outputs_are_same;
use execlog::record::{Digest, EnvironmentVariable, File, Platform, Property, SpawnExec};
use execlog::tracker::Tracker;

fn digest_of(hash: &str) -> Digest {
    Digest {
        hash: hash.to_string(),
        size_bytes: "1".to_string(),
        hash_function_name: "SHA-256".to_string(),
    }
}

fn file_of(path: &str, hash: &str) -> File {
    File { path: path.to_string(), digest: digest_of(hash) }
}

fn record(
    args: &[&str],
    envs: &[(&str, &str)],
    props: &[(&str, &str)],
    inputs: &[(&str, &str)],
    outputs: &[(&str, &str)],
    precomputed: Option<&str>,
    marker: &str,
) -> SpawnExec {
    SpawnExec {
        command_args: args.iter().map(|s| s.to_string()).collect(),
        environment_variables: envs
            .iter()
            .map(|(n, v)| EnvironmentVariable { name: n.to_string(), value: v.to_string() })
            .collect(),
        platform: Platform {
            properties: props
                .iter()
                .map(|(n, v)| Property { name: n.to_string(), value: v.to_string() })
                .collect(),
        },
        inputs: inputs.iter().map(|(p, h)| file_of(p, h)).collect(),
        listed_outputs: vec![],
        remotable: true,
        cacheable: true,
        progress_message: format!("Building {}", marker),
        mnemonic: marker.to_string(),
        actual_outputs: outputs.iter().map(|(p, h)| file_of(p, h)).collect(),
        runner: "remote".to_string(),
        remote_cache_hit: false,
        status: "".to_string(),
        exit_code: 0,
        remote_cacheable: true,
        target_label: "//pkg:thing".to_string(),
        digest: precomputed.map(digest_of),
    }
}

fn base_record(outputs: &[(&str, &str)], marker: &str) -> SpawnExec {
    record(
        &["gcc", "-c", "a.c"],
        &[("PATH", "/bin")],
        &[("os", "linux")],
        &[("a.c", "0a1b"), ("a.h", "ff00")],
        outputs,
        None,
        marker,
    )
}

#[test]
fn fingerprint_is_deterministic() {
    let a = base_record(&[("a.o", "11aa")], "one");
    let b = base_record(&[("a.o", "11aa")], "one");
    assert_eq!(a.digest().unwrap(), b.digest().unwrap());
    assert_eq!(a.digest().unwrap(), a.digest().unwrap());
    assert_eq!(a.digest().unwrap().len(), 32);
}

#[test]
fn fingerprint_changes_with_each_identity_field() {
    let base = base_record(&[("a.o", "11aa")], "one").digest().unwrap();
    let changed_arg =
        record(&["gcc", "-c", "b.c"], &[("PATH", "/bin")], &[("os", "linux")],
            &[("a.c", "0a1b"), ("a.h", "ff00")], &[("a.o", "11aa")], None, "one");
    assert_ne!(changed_arg.digest().unwrap(), base);
    let changed_env =
        record(&["gcc", "-c", "a.c"], &[("PATH", "/usr/bin")], &[("os", "linux")],
            &[("a.c", "0a1b"), ("a.h", "ff00")], &[("a.o", "11aa")], None, "one");
    assert_ne!(changed_env.digest().unwrap(), base);
    let changed_prop =
        record(&["gcc", "-c", "a.c"], &[("PATH", "/bin")], &[("os", "darwin")],
            &[("a.c", "0a1b"), ("a.h", "ff00")], &[("a.o", "11aa")], None, "one");
    assert_ne!(changed_prop.digest().unwrap(), base);
    let changed_input_path =
        record(&["gcc", "-c", "a.c"], &[("PATH", "/bin")], &[("os", "linux")],
            &[("a.cc", "0a1b"), ("a.h", "ff00")], &[("a.o", "11aa")], None, "one");
    assert_ne!(changed_input_path.digest().unwrap(), base);
    let changed_input_hash =
        record(&["gcc", "-c", "a.c"], &[("PATH", "/bin")], &[("os", "linux")],
            &[("a.c", "0a1c"), ("a.h", "ff00")], &[("a.o", "11aa")], None, "one");
    assert_ne!(changed_input_hash.digest().unwrap(), base);
    // Outputs and descriptive fields take no part in the fingerprint.
    let changed_output = base_record(&[("a.o", "22bb")], "two");
    assert_eq!(changed_output.digest().unwrap(), base);
}

#[test]
fn fingerprint_matches_sha256_of_material() {
    // One argument and nothing else: the material is exactly its bytes.
    let r = record(&["abc"], &[], &[], &[], &[], None, "one");
    let fp = r.digest().unwrap();
    let direct = <sha2::Sha256 as sha2::digest::Digest>::digest(b"abc").to_vec();
    assert_eq!(fp, direct);
    // The SHA-256 digest of "abc", as every test vector lists it.
    let known = decode_hex(b"ba7816bf8f01cfea414140de5dae2223b00361a396177a9cb410ff61f20015ad")
        .unwrap();
    assert_eq!(fp, known);
}

#[test]
fn fingerprint_trusts_precomputed_digest() {
    let hash = "00112233445566778899aabbccddeeff00112233445566778899aabbccddeeff";
    let a = base_record(&[("a.o", "11aa")], "one");
    let b = record(&["totally", "different"], &[("HOME", "/root")], &[("os", "windows")],
        &[("z.c", "9999")], &[("z.o", "8888")], Some(hash), "two");
    let c = record(&[], &[], &[], &[], &[], Some(hash), "three");
    // With a precomputed digest only its decoded bytes matter.
    assert_eq!(b.digest().unwrap(), c.digest().unwrap());
    assert_eq!(b.digest().unwrap(), decode_hex(hash.as_bytes()).unwrap());
    assert_ne!(b.digest().unwrap(), a.digest().unwrap());
}

#[test]
fn malformed_digests_are_fatal() {
    // A precomputed digest that is not 64 hexadecimal digits.
    let short = record(&[], &[], &[], &[], &[], Some("abcd"), "one");
    assert_eq!(short.digest(), Err(MalformedDigest));
    let odd = record(&[], &[], &[], &[], &[], Some("abc"), "one");
    assert_eq!(odd.digest(), Err(MalformedDigest));
    let not_hex = record(&[], &[], &[], &[], &[], Some(
        "zz112233445566778899aabbccddeeff00112233445566778899aabbccddeezz",
    ), "one");
    assert_eq!(not_hex.digest(), Err(MalformedDigest));
    // An input content digest that is not hexadecimal text.
    let bad_input = record(&["gcc"], &[], &[], &[("a.c", "xyz")], &[], None, "one");
    assert_eq!(bad_input.digest(), Err(MalformedDigest));
}

#[test]
fn output_equality_is_reflexive_and_order_sensitive() {
    let r = base_record(&[("a", "h1"), ("b", "h2")], "one");
    assert!(outputs_are_same(&r.actual_outputs, &r.actual_outputs));
    let swapped = base_record(&[("b", "h2"), ("a", "h1")], "one");
    assert!(!outputs_are_same(&r.actual_outputs, &swapped.actual_outputs));
    let shorter = base_record(&[("a", "h1")], "one");
    assert!(!outputs_are_same(&r.actual_outputs, &shorter.actual_outputs));
}

#[test]
fn output_equality_reads_path_and_hash_only() {
    let mut a = vec![file_of("a.o", "11aa")];
    let b = vec![file_of("a.o", "11aa")];
    a[0].digest.size_bytes = "999".to_string();
    a[0].digest.hash_function_name = "MD5".to_string();
    assert!(outputs_are_same(&a, &b));
}

#[test]
fn tracker_reports_one_divergence_per_fingerprint() {
    let mut t = Tracker::new();
    let fp = vec![7u8; 32];
    t.process(fp.clone(), base_record(&[("a.o", "11aa")], "one"));
    assert!(t.divergences().is_empty());
    t.process(fp.clone(), base_record(&[("a.o", "22bb")], "two"));
    assert_eq!(t.divergences().len(), 1);
    // A third record with the same fingerprint is ignored, divergent or not.
    t.process(fp.clone(), base_record(&[("a.o", "33cc")], "three"));
    assert_eq!(t.divergences().len(), 1);
    let d = &t.divergences()[0];
    assert_eq!(d.fingerprint, fp);
    assert_eq!(d.first.mnemonic, "one");
    assert_eq!(d.second.mnemonic, "two");
}

#[test]
fn tracker_keeps_fingerprints_apart() {
    let mut t = Tracker::new();
    t.process(vec![1u8; 32], base_record(&[("a.o", "11aa")], "one"));
    t.process(vec![2u8; 32], base_record(&[("a.o", "22bb")], "two"));
    assert!(t.divergences().is_empty());
    t.process(vec![2u8; 32], base_record(&[("a.o", "33cc")], "four"));
    assert_eq!(t.divergences().len(), 1);
    assert_eq!(t.divergences()[0].fingerprint, vec![2u8; 32]);
    assert_eq!(t.divergences()[0].first.mnemonic, "two");
}

fn run_pipeline(files: &[Vec<Vec<u8>>]) -> Result<Tracker, String> {
    let mut t = Tracker::new();
    for lines in files {
        let (objs, tail) = split_log(lines);
        if let Some(partial) = tail {
            let text = String::from_utf8(partial).unwrap_or_default();
            return Err(format!("unterminated log: {}", text));
        }
        for obj in objs {
            let parsed: serde_json::Value = match serde_json::from_slice(&obj) {
                Ok(v) => v,
                Err(_) => {
                    let text = String::from_utf8(obj).unwrap_or_default();
                    return Err(format!("failed to parse json {}", text));
                },
            };
            let rec = value_to_record(&parsed);
            let fp = rec.digest().map_err(|_| "invalid digest".to_string())?;
            t.process(fp, rec);
        }
    }
    Ok(t)
}

fn str_at(v: &serde_json::Value, key: &str) -> String {
    v.get(key).and_then(|x| x.as_str()).unwrap_or("").to_string()
}

fn pairs_at(v: &serde_json::Value, key: &str) -> Vec<(String, String)> {
    v.get(key)
        .and_then(|x| x.as_array())
        .map(|a| a.iter().map(|e| (str_at(e, "name"), str_at(e, "value"))).collect())
        .unwrap_or_default()
}

fn files_at(v: &serde_json::Value, key: &str) -> Vec<File> {
    v.get(key)
        .and_then(|x| x.as_array())
        .map(|a| {
            a.iter()
                .map(|e| File {
                    path: str_at(e, "path"),
                    digest: digest_at(e.get("digest").unwrap()),
                })
                .collect()
        })
        .unwrap_or_default()
}

fn digest_at(v: &serde_json::Value) -> Digest {
    Digest {
        hash: str_at(v, "hash"),
        size_bytes: str_at(v, "sizeBytes"),
        hash_function_name: str_at(v, "hashFunctionName"),
    }
}

fn value_to_record(v: &serde_json::Value) -> SpawnExec {
    SpawnExec {
        command_args: v
            .get("commandArgs")
            .and_then(|x| x.as_array())
            .map(|a| a.iter().map(|e| e.as_str().unwrap_or("").to_string()).collect())
            .unwrap_or_default(),
        environment_variables: pairs_at(v, "environmentVariables")
            .into_iter()
            .map(|(n, val)| EnvironmentVariable { name: n, value: val })
            .collect(),
        platform: Platform {
            properties: v
                .get("platform")
                .map(|p| pairs_at(p, "properties"))
                .unwrap_or_default()
                .into_iter()
                .map(|(n, val)| Property { name: n, value: val })
                .collect(),
        },
        inputs: files_at(v, "inputs"),
        listed_outputs: vec![],
        remotable: false,
        cacheable: false,
        progress_message: str_at(v, "progressMessage"),
        mnemonic: str_at(v, "mnemonic"),
        actual_outputs: files_at(v, "actualOutputs"),
        runner: "".to_string(),
        remote_cache_hit: false,
        status: "".to_string(),
        exit_code: 0,
        remote_cacheable: false,
        target_label: "".to_string(),
        digest: v.get("digest").map(digest_at),
    }
}

fn record_lines(input_hash: &str, output_hash: &str, message: &str) -> Vec<Vec<u8>> {
    vec![
        b"\"commandArgs\": [\"gcc\", \"-c\", \"a.c\"],".to_vec(),
        b"\"environmentVariables\": [{\"name\": \"PATH\", \"value\": \"/bin\"}],".to_vec(),
        b"\"platform\": {\"properties\": [{\"name\": \"os\", \"value\": \"linux\"}]},".to_vec(),
        format!(
            "\"inputs\": [{{\"path\": \"a.c\", \"digest\": {{\"hash\": \"{}\", \"sizeBytes\": \"9\", \"hashFunctionName\": \"SHA-256\"}}}}],",
            input_hash
        )
        .into_bytes(),
        format!(
            "\"actualOutputs\": [{{\"path\": \"a.o\", \"digest\": {{\"hash\": \"{}\", \"sizeBytes\": \"9\", \"hashFunctionName\": \"SHA-256\"}}}}],",
            output_hash
        )
        .into_bytes(),
        format!("\"progressMessage\": \"{}\",", message).into_bytes(),
        b"\"mnemonic\": \"CppCompile\"".to_vec(),
    ]
}

fn one_file(records: &[Vec<Vec<u8>>]) -> Vec<Vec<u8>> {
    let mut lines: Vec<Vec<u8>> = vec![b"{".to_vec()];
    for (i, rec) in records.iter().enumerate() {
        lines.extend(rec.iter().cloned());
        if i + 1 < records.len() {
            lines.push(b"}{".to_vec());
        } else {
            lines.push(b"}".to_vec());
        }
    }
    lines
}

#[test]
fn scenario_same_action_divergent_outputs() {
    let file = one_file(&[
        record_lines("0a1b", "11aa", "Compiling a.c"),
        record_lines("0a1b", "22bb", "Compiling a.c"),
    ]);
    let t = run_pipeline(&[file]).unwrap();
    assert_eq!(t.divergences().len(), 1);
    let d = &t.divergences()[0];
    assert_eq!(d.first.progress_message, "Compiling a.c");
    assert_eq!(d.first.actual_outputs[0].digest.hash, "11aa");
    assert_eq!(d.second.actual_outputs[0].digest.hash, "22bb");
}

#[test]
fn scenario_byte_identical_records_are_deterministic() {
    let file = one_file(&[
        record_lines("0a1b", "11aa", "Compiling a.c"),
        record_lines("0a1b", "11aa", "Compiling a.c"),
    ]);
    let t = run_pipeline(&[file]).unwrap();
    assert!(t.divergences().is_empty());
}

#[test]
fn scenario_two_files_same_fingerprint_same_outputs() {
    let file_a = one_file(&[record_lines("0a1b", "11aa", "Compiling a.c")]);
    let file_b = one_file(&[record_lines("0a1b", "11aa", "Compiling a.c")]);
    let t = run_pipeline(&[file_a, file_b]).unwrap();
    assert!(t.divergences().is_empty());
}

#[test]
fn scenario_malformed_record_aborts_the_run() {
    let mut bad = record_lines("0a1b", "11aa", "Compiling a.c");
    bad.push(b"not json at all".to_vec());
    let file = one_file(&[bad]);
    let err = run_pipeline(&[file]).unwrap_err();
    assert!(err.starts_with("failed to parse json"));
    assert!(err.contains("not json at all"));
}
