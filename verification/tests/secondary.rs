use simadmin_ims::error::ImsError;
use simadmin_ims::secondary_qmi::{
    candidate_secondary_devices, driver_outcome, error_contents, find_data6, first_ready,
    is_data6_name, next_task, nonblank, notify_socket_name, probe_result, qmi_ready_arguments,
    state_contents, watch_result, InitEvent, InitTask, DATA6_NAME,
};

#[test]
fn uses_beta9_data6_name() {
    assert_eq!(DATA6_NAME, "DATA6_CNTL");
}

fn names(list: &[&str]) -> Vec<String> {
    list.iter().map(|name| name.to_string()).collect()
}

#[test]
fn reports_why_the_driver_was_not_loaded() {
    assert_eq!(driver_outcome(true, b""), Ok(()));
    assert_eq!(
        driver_outcome(false, b"modprobe: not found\n")
            .unwrap_err()
            .message(),
        "failed to load rpmsg_wwan_ctrl: modprobe: not found"
    );
}

#[test]
fn finds_the_first_data6_device() {
    assert!(is_data6_name("DATA6_CNTL\n"));
    assert!(!is_data6_name("DATA60_CNTL"));
    let list = names(&["DATA5_CNTL", " DATA6_CNTL\n", "DATA6_CNTL"]);
    assert_eq!(find_data6(&list, Some("broken".to_string())), Ok(1));
    let list = names(&["DATA5_CNTL"]);
    assert_eq!(find_data6(&list, None), Err(ImsError::Data6NotFound));
    assert_eq!(
        find_data6(&list, Some("broken".to_string())),
        Err(ImsError::System("broken".to_string()))
    );
}

#[test]
fn tries_the_configured_device_only() {
    let list = names(&["wwan0qmi1"]);
    assert_eq!(
        candidate_secondary_devices(Some(" /dev/x ".to_string()), None, &list),
        vec![" /dev/x "]
    );
    assert_eq!(nonblank(Some(" ".to_string())), None);
    assert_eq!(nonblank(Some("a".to_string())), Some("a".to_string()));
}

#[test]
fn tries_the_secondary_ports_in_order() {
    let list = names(&[
        "wwan0qmi2", "null", "wwan0at2", "wwan0qmi0", "wwan0qmi10", "wwan0at1", "wwan0qmi1",
        "wwan0qmi2",
    ]);
    assert_eq!(
        candidate_secondary_devices(Some("  ".to_string()), None, &list),
        vec!["/dev/wwan0at2", "/dev/wwan0qmi1", "/dev/wwan0qmi10", "/dev/wwan0qmi2"]
    );
    assert_eq!(
        candidate_secondary_devices(None, Some("/dev/wwan0qmi1".to_string()), &list),
        vec!["/dev/wwan0at2", "/dev/wwan0qmi10", "/dev/wwan0qmi2"]
    );
    assert_eq!(
        candidate_secondary_devices(None, None, &[]),
        vec!["/dev/wwan0at2"]
    );
    assert!(
        candidate_secondary_devices(None, Some("/dev/wwan0at2".to_string()), &[]).is_empty()
    );
}

#[test]
fn asks_for_the_service_versions() {
    assert_eq!(
        qmi_ready_arguments("/dev/wwan0at2"),
        vec![
            "-d",
            "/dev/wwan0at2",
            "--device-open-qmi",
            "--device-open-net=net-raw-ip|net-no-qos-header",
            "--get-service-version-info",
        ]
    );
}

#[test]
fn writes_the_state_and_the_socket_name() {
    assert_eq!(state_contents("/dev/wwan0at2"), "/dev/wwan0at2\n");
    assert_eq!(notify_socket_name("@abc"), "\0abc");
    assert_eq!(notify_socket_name("/run/x"), "/run/x");
    assert_eq!(notify_socket_name(""), "");
}

#[test]
fn initializes_step_by_step() {
    let device = || "/dev/wwan0at2".to_string();
    let steps = vec![
        (InitEvent::Done, InitTask::FindDevice),
        (InitEvent::Done, InitTask::CheckOverride),
        (InitEvent::Present(true), InitTask::WriteOverride),
        (InitEvent::Done, InitTask::CheckBindNode),
        (InitEvent::Present(true), InitTask::CheckName),
        (InitEvent::Present(true), InitTask::ReadDriver),
        (InitEvent::Driver(None), InitTask::Bind),
        (InitEvent::Done, InitTask::CreateDirectory),
        (InitEvent::Done, InitTask::RemoveState),
        (
            InitEvent::Failed(ImsError::System("no file".to_string())),
            InitTask::Probe,
        ),
        (InitEvent::NotReady(false), InitTask::Pause),
        (InitEvent::Done, InitTask::Probe),
        (InitEvent::Ready(device()), InitTask::Publish(device())),
        (InitEvent::Done, InitTask::Announce(device())),
        (InitEvent::Done, InitTask::Watch(device())),
        (InitEvent::Present(true), InitTask::Rest(device())),
        (InitEvent::Done, InitTask::Watch(device())),
        (
            InitEvent::Present(false),
            InitTask::WriteError(ImsError::EndpointDisappeared),
        ),
        (
            InitEvent::Done,
            InitTask::Fail(ImsError::EndpointDisappeared),
        ),
        (
            InitEvent::Done,
            InitTask::Fail(ImsError::EndpointDisappeared),
        ),
    ];
    let mut task = InitTask::LoadDriver;
    for (event, expected) in steps {
        task = next_task(task, event);
        assert_eq!(task, expected);
    }
}

#[test]
fn writes_down_why_the_endpoint_was_lost() {
    let watch = || InitTask::Watch("/dev/wwan0at2".to_string());
    let same = watch_result((1, 2), Some((1, 2)));
    assert_eq!(same, InitEvent::Present(true));
    assert_eq!(watch_result((1, 2), None), InitEvent::Present(false));
    assert_eq!(watch_result((1, 2), Some((1, 3))), InitEvent::Replaced);
    assert_eq!(watch_result((1, 2), Some((0, 2))), InitEvent::Replaced);
    let replaced = || ImsError::EndpointReplaced;
    assert_eq!(
        next_task(watch(), InitEvent::Replaced),
        InitTask::WriteError(replaced())
    );
    for written in [
        InitEvent::Done,
        InitEvent::Failed(ImsError::System("full".to_string())),
    ] {
        assert_eq!(
            next_task(InitTask::WriteError(replaced()), written),
            InitTask::Fail(replaced())
        );
    }
    assert_eq!(
        error_contents(&replaced()),
        "secondary QMI endpoint was replaced\n"
    );
    assert_eq!(
        error_contents(&ImsError::EndpointDisappeared),
        "secondary QMI endpoint disappeared\n"
    );
}

#[test]
fn takes_the_first_device_that_is_ready() {
    let list = names(&["/dev/a", "/dev/b", "/dev/c"]);
    assert_eq!(first_ready(&list, &[false, true, true]), Some(1));
    assert_eq!(first_ready(&list, &[false, true]), Some(1));
    assert_eq!(first_ready(&list, &[false, false, false, true]), None);
    assert_eq!(first_ready(&[], &[true]), None);
    assert_eq!(
        probe_result(&list, &[false, true], true),
        InitEvent::Ready("/dev/b".to_string())
    );
    assert_eq!(
        probe_result(&list, &[false, false, false], false),
        InitEvent::NotReady(false)
    );
    assert_eq!(
        probe_result(&list, &[false, false, false], true),
        InitEvent::NotReady(true)
    );
}

#[test]
fn binds_a_device_only_where_it_is_not_bound() {
    let bound = InitEvent::Driver(Some("rpmsg_wwan_ctrl".to_string()));
    assert_eq!(
        next_task(InitTask::ReadDriver, bound),
        InitTask::CreateDirectory
    );
    let other = InitEvent::Driver(Some("rpmsg_chrdev".to_string()));
    assert_eq!(next_task(InitTask::ReadDriver, other), InitTask::Bind);
}

#[test]
fn gives_up_where_a_step_fails() {
    let failed = || InitEvent::Failed(ImsError::System("no".to_string()));
    for task in [
        InitTask::LoadDriver,
        InitTask::FindDevice,
        InitTask::WriteOverride,
        InitTask::Bind,
        InitTask::CreateDirectory,
        InitTask::Publish("x".to_string()),
    ] {
        assert_eq!(
            next_task(task, failed()),
            InitTask::Fail(ImsError::System("no".to_string()))
        );
    }
    for (task, error) in [
        (InitTask::CheckOverride, ImsError::NoDriverOverride),
        (InitTask::CheckBindNode, ImsError::NoBindNode),
        (InitTask::CheckName, ImsError::InvalidDeviceName),
    ] {
        assert_eq!(
            next_task(task, InitEvent::Present(false)),
            InitTask::Fail(error)
        );
    }
    assert_eq!(
        next_task(InitTask::Probe, InitEvent::NotReady(true)),
        InitTask::Fail(ImsError::EndpointNotReady)
    );
    assert_eq!(next_task(InitTask::Probe, InitEvent::Done), InitTask::Probe);
}
