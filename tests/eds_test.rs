use canopen::data_type::DataType;
use canopen::object_directory::{obj_to_array, obj_to_record, obj_to_variable, AccessType, ObjectDirectory, ObjectType};

const SAMPLE_EDS: &str = "\
[1003]
ParameterName=Pre-defined error field
ObjectType=0x8
DataType=0x0007
AccessType=ro
CompactSubObj=254

[1017]
ParameterName=Producer heartbeat time
ObjectType=0x7
DataType=0x0007
AccessType=rw
DefaultValue=0x12345678

[1018]
ParameterName=Identity object
ObjectType=0x9

[1018sub0]
ParameterName=Number of entries
ObjectType=0x7
DataType=0x0005
AccessType=ro
DefaultValue=4

[1018sub1]
ParameterName=Vendor-ID
ObjectType=0x7
DataType=0x0007
AccessType=ro
DefaultValue=0x12345

[1018sub2]
ParameterName=Product code
ObjectType=0x7
DataType=0x0007
AccessType=ro

[1018sub3]
ParameterName=Revision number
ObjectType=0x7
DataType=0x0007
AccessType=ro

[1018sub4]
ParameterName=Serial number
ObjectType=0x7
DataType=0x0007
AccessType=ro

[1400]
ParameterName=Receive PDO 0 Communication Parameter
ObjectType=0x9

[1400sub0]
ParameterName=Highest sub-index supported
ObjectType=0x7
DataType=0x0005
AccessType=ro
DefaultValue=2

[1400sub1]
ParameterName=COB-ID use by RPDO 1
ObjectType=0x7
DataType=0x0007
AccessType=rw
DefaultValue=$NODEID+0x200

[1400sub2]
ParameterName=Transmission type
ObjectType=0x7
DataType=0x0005
AccessType=rw
DefaultValue=1

[3003]
ParameterName=Valve % open
ObjectType=0x8
DataType=0x0005
AccessType=rw
CompactSubObj=2

[3004]
ParameterName=Sensor Status
ObjectType=0x8
DataType=0x0006
AccessType=ro
DefaultValue=3
CompactSubObj=3

[3004Name]
NrOfEntries=3
1=Sensor Status 1
2=Sensor Status 2
3=Sensor Status 3

[3006]
ParameterName=Valve 1 % Open
ObjectType=0x8
DataType=0x0005
AccessType=rw
CompactSubObj=1

[3010]
ParameterName=Temperature record
ObjectType=0x9

[3010Sub0]
ParameterName=Temperature
ObjectType=0x7
DataType=0x0005
AccessType=ro

[3020]
ParameterName=INTEGER8 value with limits
ObjectType=0x7
DataType=0x0002
AccessType=rw
LowLimit=0
HighLimit=0x7F

[3021]
ParameterName=UNSIGNED8 value with limits
ObjectType=0x7
DataType=0x0005
AccessType=rw
LowLimit=2
HighLimit=10

[3030]
ParameterName=INTEGER32 value with limits
ObjectType=0x7
DataType=0x0004
AccessType=rw
LowLimit=0xFFFFFFFF
HighLimit=0

[3040]
ParameterName=INTEGER64 value with limits
ObjectType=0x7
DataType=0x0015
AccessType=rw
LowLimit=-9223372036854775799
HighLimit=10
";

#[test]
fn test_variable() {
    let od = ObjectDirectory::new(2, SAMPLE_EDS).unwrap();
    let var = obj_to_variable(
        od.get_object_by_name("Producer heartbeat time")
            .expect("Object not found"),
    )
    .expect("Not a variable");

    assert_eq!(var.index, 0x1017);
    assert_eq!(var.sub_index, 0);
    assert_eq!(var.name, "Producer heartbeat time");
    assert_eq!(var.data_type, DataType::Unsigned32);
    assert_eq!(var.access_type, AccessType::new(true, true));
    assert_eq!(var.default_value.to::<u32>(), 0x12345678);
}

#[test]
fn test_relative_variable() {
    let od = ObjectDirectory::new(2, SAMPLE_EDS).unwrap();
    let var = obj_to_record(
        od.get_object_by_name("Receive PDO 0 Communication Parameter")
            .unwrap(),
    )
    .unwrap()
    .get_variable_by_name("COB-ID use by RPDO 1")
    .expect("Expected to find the variable");
    assert_eq!(var.default_value.to::<u32>(), 512 + od.node_id as u32);
}

#[test]
fn test_record() {
    let od = ObjectDirectory::new(2, SAMPLE_EDS).unwrap();
    let obj = od
        .get_object_by_name("Identity object")
        .expect("Identity object not found");
    if let ObjectType::Record(record) = obj {
        assert_eq!(record.name, "Identity object");
        assert_eq!(record.index, 0x1018);
        assert_eq!(record.index_to_variable.len(), 5);

        let variable = record
            .name_to_index("Vendor-ID")
            .and_then(|idx| record.index_to_variable.iter().find(|v| v.sub_index == idx))
            .expect("Variable not found");

        assert_eq!(variable.name, "Vendor-ID");
        assert_eq!(variable.index, 0x1018);
        assert_eq!(variable.sub_index, 1);
        assert_eq!(variable.data_type, DataType::Unsigned32);
        assert_eq!(variable.access_type, AccessType::new(true, false));
    } else {
        panic!("Expected a Record named 'Identity object'");
    }
}

#[test]
fn test_record_with_limits() {
    let mut od = ObjectDirectory::new(2, SAMPLE_EDS).unwrap();
    let int8 = od
        .get_variable(0x3020, 0)
        .expect("Expected to find the variable");
    assert_eq!(int8.min.as_ref().unwrap().to::<i8>(), 0);
    assert_eq!(int8.max.as_ref().unwrap().to::<i8>(), 127);

    let uint8 = od
        .get_variable(0x3021, 0)
        .expect("Expected to find the variable");
    assert_eq!(uint8.min.as_ref().unwrap().to::<u8>(), 2);
    assert_eq!(uint8.max.as_ref().unwrap().to::<u8>(), 10);

    let int32 = od
        .get_variable(0x3030, 0)
        .expect("Expected to find the variable");
    assert_eq!(int32.min.as_ref().unwrap().to::<i32>(), -1);
    assert_eq!(int32.max.as_ref().unwrap().to::<i32>(), 0);

    let int64 = od
        .get_variable(0x3040, 0)
        .expect("Expected to find the variable");
    assert_eq!(
        int64.min.as_ref().unwrap().to::<i64>(),
        -9223372036854775799
    );
    assert_eq!(int64.max.as_ref().unwrap().to::<i64>(), 10);
}

#[test]
fn test_array_compact_sub_obj() {
    let mut od = ObjectDirectory::new(2, SAMPLE_EDS).unwrap();

    if let ObjectType::Array(array_obj) = od.get_mut_object(0x1003).expect("Array not found") {
        assert_eq!(array_obj.index, 0x1003);
        assert_eq!(array_obj.name, "Pre-defined error field");
    } else {
        panic!("Expect array at index 0x1003");
    }

    match od.get_variable(0x1003, 5) {
        Ok(var) => {
            assert_eq!(var.name, "Pre-defined error field_5");
            assert_eq!(var.index, 0x1003);
            assert_eq!(var.sub_index, 5);
            assert_eq!(var.data_type, DataType::Unsigned32);
            assert_eq!(var.access_type, AccessType::new(true, false));
        }
        Err(err) => panic!("Expected an Array at index 0x1003, err: {:?}", err),
    }
}

#[test]
fn test_explicit_name_subobj() {
    let mut od = ObjectDirectory::new(2, SAMPLE_EDS).unwrap();
    let array = od.get_mut_object(0x3004).expect("Array not found");

    if let ObjectType::Array(array_obj) = &array {
        assert_eq!(array_obj.name, "Sensor Status");
    } else {
        panic!("Expected an Array at index 0x3004");
    }

    match od.get_variable(0x3004, 1) {
        Ok(var) => assert_eq!(var.name, "Sensor Status 1"),
        Err(err) => panic!("Expected an Variable at (0x3004, 1), err: {:?}", err),
    }

    match od.get_variable(0x3004, 3) {
        Ok(var) => {
            assert_eq!(var.name, "Sensor Status 3");
            assert_eq!(var.default_value.to::<u16>(), 3);
        }
        Err(err) => panic!("Expected an Variable at (0x3004, 3), err: {:?}", err),
    }
}

#[test]
fn test_parameter_name_with_percent() {
    let mut od = ObjectDirectory::new(2, SAMPLE_EDS).unwrap();
    let array = od.get_mut_object(0x3003).expect("Array not found");

    if let ObjectType::Array(array_obj) = &array {
        assert_eq!(array_obj.name, "Valve % open");
    } else {
        panic!("Expected an Array at index 0x3003");
    }
}

#[test]
fn test_compact_subobj_parameter_name_with_percent() {
    let mut od = ObjectDirectory::new(2, SAMPLE_EDS).unwrap();
    let array = od.get_mut_object(0x3006).expect("Array not found");

    if let ObjectType::Array(array_obj) = &array {
        assert_eq!(array_obj.name, "Valve 1 % Open");
    } else {
        panic!("Expected an Array at index 0x3006");
    }
}

#[test]
fn test_sub_index_with_capital_s() {
    let mut od = ObjectDirectory::new(2, SAMPLE_EDS).unwrap();

    match od.get_mut_object(0x3010).expect("Record not found") {
        ObjectType::Record(record_obj) => {
            let sub_obj = record_obj
                .get_mut_variable(0)
                .expect("Sub-object not found");
            assert_eq!(sub_obj.name, "Temperature");
        }
        _ => panic!("Expected a Record at index 0x3010"),
    }
}

#[test]
fn malformed_sections_are_refused() {
    assert!(ObjectDirectory::new(2, "[1000]\nObjectType=0x7\n").is_err());
    assert!(ObjectDirectory::new(2, "[1000sub1]\nParameterName=x\n").is_err());
    assert!(ObjectDirectory::new(2, "[1000Name]\nNrOfEntries=x\n").is_err());
    assert!(ObjectDirectory::new(2, "[Comments]\nLines=0\n").is_ok());
}

#[test]
fn access_checks_on_get_and_set() {
    let mut od = ObjectDirectory::new(2, SAMPLE_EDS).unwrap();
    assert!(od.get_variable(0x1018, 9).is_err());
    assert!(od.get_variable(0x2000, 0).is_err());
    assert!(od.get_variable(0x1017, 1).is_err());
    assert!(od.set_value(0x1018, 1, &[1, 2, 3, 4], false).is_err());
    assert!(od.set_value(0x1018, 1, &[1, 2, 3, 4], true).is_ok());
    assert!(od.set_value(0x1017, 0, &[1, 2], false).is_err());
    let v = od.set_value(0x1017, 0, &[1, 2, 3, 4], false).unwrap();
    assert_eq!(v.default_value.to::<u32>(), 0x04030201);
    od.set_value_with_fitting_size(0x3021, 0, &[9, 8, 7]);
    assert_eq!(od.get_variable(0x3021, 0).unwrap().default_value.to::<u8>(), 9);
    od.set_value_with_fitting_size(0x1018, 2, &[9, 8, 7, 6]);
    assert_eq!(od.get_variable(0x1018, 2).unwrap().default_value.to::<u32>(), 0);
}

#[test]
fn objects_by_kind() {
    let od = ObjectDirectory::new(2, SAMPLE_EDS).unwrap();
    assert!(obj_to_array(od.get_object_by_name("Sensor Status").unwrap()).is_some());
    assert!(obj_to_array(od.get_object_by_name("Identity object").unwrap()).is_none());
    assert!(od.get_object_by_name("No such object").is_none());
}
