use oar_p2p::machine::Machine;
use oar_p2p::oar::{
    extract_job_ids_from_oarstat_output, extract_machines_from_oar_stat_json,
    job_ids_from_entries, machines_from_hostnames, normalize_oarstat_json, unique_hostnames,
    OarStatError,
};

const OAR_STAT_JSON_JOB_ID: u32 = 36627;
const OAR_STAT_JSON_OUTPUT: &str = r#"
{
   "36627" : {
      "types" : [],
      "reservation" : "None",
      "dependencies" : [],
      "Job_Id" : 36627,
      "assigned_network_address" : [
         "gengar-1",
         "gengar-2"
      ],
      "owner" : "diogo464",
      "properties" : "(( ( dedicated='NO' OR dedicated='protocol-labs' )) AND desktop_computing = 'NO') AND drain='NO'",
      "startTime" : 1751979909,
      "cpuset_name" : "diogo464_36627",
      "stderr_file" : "OAR.36627.stderr",
      "queue" : "default",
      "state" : "Running",
      "stdout_file" : "OAR.36627.stdout",
      "array_index" : 1,
      "array_id" : 36627,
      "assigned_resources" : [
         419,
         420,
         421,
         422,
         423,
         424,
         425,
         426,
         427,
         428,
         429,
         430,
         431,
         432,
         433,
         434
      ],
      "name" : null,
      "resubmit_job_id" : 0,
      "message" : "R=16,W=12:0:0,J=B (Karma=0.087,quota_ok)",
      "launchingDirectory" : "/home/diogo464",
      "jobType" : "PASSIVE",
      "submissionTime" : 1751979897,
      "project" : "default",
      "command" : "sleep 365d"
   }
}
"#;

#[test]
fn main_test_extract_machines_from_oar_stat_json() {
    let machines =
        extract_machines_from_oar_stat_json(OAR_STAT_JSON_OUTPUT, OAR_STAT_JSON_JOB_ID).unwrap();
    assert_eq!(machines.len(), 2);
    assert_eq!(machines[0], Machine::Gengar1);
    assert_eq!(machines[1], Machine::Gengar2);
}

#[test]
fn oar_test_extract_machines_from_oar_stat_json() {
    let machines =
        extract_machines_from_oar_stat_json(OAR_STAT_JSON_OUTPUT, OAR_STAT_JSON_JOB_ID).unwrap();
    assert_eq!(machines.len(), 2);
    assert_eq!(machines[0], Machine::Gengar1);
    assert_eq!(machines[1], Machine::Gengar2);
}

const OAR_STAT_ALL_USER_JOBS_OUTPUT: &str = r#"
{
   "37030" : {
      "dependencies" : [],
      "jobType" : "PASSIVE",
      "state" : "Running",
      "assigned_network_address" : [
         "moltres-02"
      ],
      "command" : "sleep 365d",
      "submissionTime" : 1752824505,
      "name" : null,
      "Job_Id" : 37030,
      "stderr_file" : "OAR.37030.stderr",
      "queue" : "default",
      "launchingDirectory" : "/home/diogo464",
      "reservation" : "None",
      "properties" : "(( ( dedicated='NO' OR dedicated='protocol-labs' OR dedicated='tardis' )) AND desktop_computing = 'NO') AND drain='NO'",
      "message" : "R=64,W=1:0:0,J=B (Karma=0.106,quota_ok)",
      "stdout_file" : "OAR.37030.stdout",
      "resubmit_job_id" : 0,
      "types" : [],
      "cpuset_name" : "diogo464_37030",
      "array_index" : 1,
      "project" : "default",
      "array_id" : 37030,
      "owner" : "diogo464",
      "startTime" : 1752824506,
      "assigned_resources" : [
         893,
         894
      ]
   },
   "37029" : {
      "command" : "sleep 365d",
      "submissionTime" : 1752824490,
      "dependencies" : [],
      "jobType" : "PASSIVE",
      "state" : "Running",
      "assigned_network_address" : [
         "moltres-01"
      ],
      "Job_Id" : 37029,
      "stderr_file" : "OAR.37029.stderr",
      "name" : null,
      "types" : [],
      "cpuset_name" : "diogo464_37029",
      "launchingDirectory" : "/home/diogo464",
      "queue" : "default",
      "reservation" : "None",
      "message" : "R=64,W=1:0:0,J=B (Karma=0.106,quota_ok)",
      "stdout_file" : "OAR.37029.stdout",
      "properties" : "(( ( dedicated='NO' OR dedicated='protocol-labs' OR dedicated='tardis' )) AND desktop_computing = 'NO') AND drain='NO'",
      "resubmit_job_id" : 0,
      "startTime" : 1752824491,
      "assigned_resources" : [
         829,
         830
      ],
      "array_index" : 1,
      "project" : "default",
      "array_id" : 37029,
      "owner" : "diogo464"
   }
}
"#;

#[test]
fn test_extract_job_ids_from_oarstat_output() {
    let job_ids = extract_job_ids_from_oarstat_output(OAR_STAT_ALL_USER_JOBS_OUTPUT).unwrap();
    assert_eq!(job_ids.len(), 2);
    assert!(job_ids.contains(&37030));
    assert!(job_ids.contains(&37029));
}

#[test]
fn extract_machines_rejects_invalid_json() {
    assert!(matches!(
        extract_machines_from_oar_stat_json("not json at all", 1),
        Err(OarStatError::InvalidJson)
    ));
}

#[test]
fn extract_machines_rejects_missing_job_key() {
    assert!(matches!(
        extract_machines_from_oar_stat_json("{}", 36627),
        Err(OarStatError::MissingJobKey)
    ));
}

#[test]
fn extract_machines_rejects_missing_addresses() {
    let output = r#"{ "7" : { "state" : "Running" } }"#;
    assert!(matches!(
        extract_machines_from_oar_stat_json(output, 7),
        Err(OarStatError::InvalidStructure)
    ));
}

#[test]
fn extract_machines_rejects_unknown_hostname() {
    let output = r#"{ "7" : { "assigned_network_address" : [ "nonexistent-99" ] } }"#;
    match extract_machines_from_oar_stat_json(output, 7) {
        Err(OarStatError::UnknownHostname(h)) => assert_eq!(h, "nonexistent-99"),
        other => panic!("expected UnknownHostname, got {:?}", other),
    }
}

#[test]
fn extract_job_ids_rejects_non_object() {
    assert!(matches!(
        extract_job_ids_from_oarstat_output("[1, 2]"),
        Err(OarStatError::NotAnObject)
    ));
}

#[test]
fn extract_job_ids_skips_non_running_jobs() {
    let output = r#"{ "5" : { "state" : "Waiting" }, "6" : { "state" : "Running" } }"#;
    let ids = extract_job_ids_from_oarstat_output(output).unwrap();
    assert_eq!(ids, vec![6]);
}

#[test]
fn job_ids_entries_reject_bad_key() {
    let entries = vec![("abc".to_string(), Some("Running".to_string()))];
    match job_ids_from_entries(&entries) {
        Err(OarStatError::InvalidJobId(k)) => assert_eq!(k, "abc"),
        other => panic!("expected InvalidJobId, got {:?}", other),
    }
}

#[test]
fn job_ids_entries_reject_missing_state() {
    let entries = vec![("5".to_string(), None)];
    assert!(matches!(
        job_ids_from_entries(&entries),
        Err(OarStatError::InvalidStructure)
    ));
}

#[test]
fn machines_from_hostnames_resolves_in_order() {
    let hostnames = vec!["gengar-2".to_string(), "oddish-1".to_string()];
    let machines = machines_from_hostnames(&hostnames).unwrap();
    assert_eq!(machines, vec![Machine::Gengar2, Machine::Oddish1]);
}

#[test]
fn normalize_oarstat_json_maps_no_jobs_error_to_empty_object() {
    let noise = "hash- or arrayref expected (not a simple scalar, use allow_nonref to allow this) at /usr/lib/oar/oarstat line 285.";
    assert_eq!(normalize_oarstat_json(noise.to_string()), "{}");
    assert_eq!(normalize_oarstat_json("{}".to_string()), "{}");
    assert_eq!(normalize_oarstat_json("other".to_string()), "other");
}

#[test]
fn unique_hostnames_keep_first_occurrence_order() {
    let lines = vec![
        "gengar-2".to_string(),
        "gengar-1".to_string(),
        "gengar-2".to_string(),
        "gengar-1".to_string(),
    ];
    assert_eq!(
        unique_hostnames(&lines),
        vec!["gengar-2".to_string(), "gengar-1".to_string()]
    );
}

#[test]
fn extract_machines_rejects_malformed_sibling_entries() {
    // every entry must carry a well-formed address list, as the original's
    // typed reading demanded, even when another job is requested
    let output = r#"{
        "7" : { "assigned_network_address" : [ "gengar-1" ] },
        "8" : { "state" : "Running" }
    }"#;
    assert!(matches!(
        extract_machines_from_oar_stat_json(output, 7),
        Err(OarStatError::InvalidStructure)
    ));

    let non_string = r#"{ "7" : { "assigned_network_address" : [ 42 ] } }"#;
    assert!(matches!(
        extract_machines_from_oar_stat_json(non_string, 7),
        Err(OarStatError::InvalidStructure)
    ));
}
