use lib::analysis::liveness::LiveInterval;
use lib::analysis::{VirtualRegister, VirtualRegisterType};
use lib::compiler::ir::HardwareRegister;
use lib::mir::RegisterMIR;
use lib::model::typesystem::TypeId;
use lib::optimization::register_allocation::linear_scan::{allocate, analyze, Settings};
use lib::optimization::register_allocation::{AllocatedRegister, RegisterAllocation};
use lib::mir::compiler::{InstructionMIRCompiler, MIRCompilationResult};
use lib::model::binder::Binder;
use lib::model::function::{Function, FunctionDeclaration, FunctionSignature};
use lib::model::instruction::Instruction;
use lib::model::typesystem::TypeStorage;
use lib::model::verification::Verifier;

fn interval(start: usize, end: usize, number: u32, register_type: VirtualRegisterType) -> LiveInterval {
    LiveInterval { start, end, register: VirtualRegister::new(number, register_type) }
}

#[test]
fn spill_the_interval_that_ends_last() {
    let intervals = vec![
        interval(0, 9, 0, VirtualRegisterType::Int),
        interval(1, 8, 1, VirtualRegisterType::Int),
    ];
    let allocation = allocate(&intervals, &Settings { num_int_registers: 1, num_float_registers: 0 });
    assert_eq!(1, allocation.num_allocated_registers());
    assert_eq!(1, allocation.num_spilled_registers());
    assert!(allocation.get_register(&RegisterMIR::new(0, TypeId::Int32)).is_stack());
    assert_eq!(Some(HardwareRegister::Int(0)), allocation.get_register(&RegisterMIR::new(1, TypeId::Int32)).hardware_register());
}

#[test]
fn expired_registers_are_reused() {
    let intervals = vec![
        interval(0, 1, 0, VirtualRegisterType::Int),
        interval(2, 3, 1, VirtualRegisterType::Int),
        interval(2, 4, 2, VirtualRegisterType::Float),
    ];
    let allocation = allocate(&intervals, &Settings { num_int_registers: 1, num_float_registers: 1 });
    assert_eq!(3, allocation.num_allocated_registers());
    assert_eq!(0, allocation.num_spilled_registers());
    assert_eq!(Some(HardwareRegister::Float(0)), allocation.get_register(&RegisterMIR::new(2, TypeId::Float32)).hardware_register());
    assert_eq!(vec![HardwareRegister::Int(0), HardwareRegister::Float(0)], allocation.alive_hardware_registers_at(3));
}

#[test]
fn current_interval_is_spilled_when_it_ends_last() {
    let intervals = vec![
        interval(0, 3, 0, VirtualRegisterType::Int),
        interval(1, 5, 1, VirtualRegisterType::Int),
    ];
    let allocation = allocate(&intervals, &Settings { num_int_registers: 1, num_float_registers: 1 });
    assert_eq!(Some(HardwareRegister::Int(0)), allocation.get_register(&RegisterMIR::new(0, TypeId::Int32)).hardware_register());
    assert!(allocation.get_register(&RegisterMIR::new(1, TypeId::Int32)).is_stack());
    assert_eq!(1, allocation.get_register(&RegisterMIR::new(1, TypeId::Int32)).interval().start);
}

#[test]
fn later_records_replace_earlier_ones() {
    let first = interval(0, 2, 0, VirtualRegisterType::Int);
    let allocation = RegisterAllocation::new(vec![(first, 1)], vec![first]);
    assert_eq!(0, allocation.num_allocated_registers());
    assert_eq!(1, allocation.num_spilled_registers());
    match allocation.get_register(&RegisterMIR::new(0, TypeId::Int32)) {
        AllocatedRegister::Stack { live_interval } => assert_eq!(&first, live_interval),
        _ => panic!("expected a stack slot"),
    }
    assert!(allocation.alive_registers_at(1).is_empty());
}

fn compile(binder: &Binder, function: &mut Function) -> MIRCompilationResult {
    let type_storage = TypeStorage::new();
    Verifier::new(binder, &type_storage, function).verify().unwrap();
    let function: &Function = function;
    let mut compiler = InstructionMIRCompiler::new(binder, function);
    compiler.compile(function.instructions());
    compiler.done()
}

fn print_allocation(compilation_result: &MIRCompilationResult, live_intervals: &Vec<LiveInterval>, allocation: &RegisterAllocation) {
    for (index, instruction) in compilation_result.instructions.iter().enumerate() {
        println!("{}: {:?}", index, instruction);
    }
    println!();
    for interval in live_intervals {
        println!("{:?}", interval);
    }
    println!();
    for interval in live_intervals {
        let register = RegisterMIR::new(
            interval.register.number,
            match interval.register.register_type {
                VirtualRegisterType::Int => TypeId::Int32,
                VirtualRegisterType::Float => TypeId::Float32,
            },
        );
        println!("{:?}: {:?}", interval.register, allocation.get_register(&register));
    }
}

fn int_chain(load: fn(i32) -> Instruction, return_type: TypeId) -> Function {
    Function::new(
        FunctionDeclaration::new_managed("test".to_owned(), vec![], return_type),
        vec![],
        vec![
            load(1),

            load(2),
            Instruction::Add,

            load(3),
            Instruction::Add,

            load(4),
            Instruction::Add,

            load(5),
            Instruction::Add,

            Instruction::Return,
        ]
    )
}

#[test]
fn test_allocate1() {
    let mut function = int_chain(Instruction::LoadInt32, TypeId::Int32);

    let binder = Binder::new();
    let compilation_result = compile(&binder, &mut function);
    let (_, _, live_intervals) = analyze(&compilation_result);

    let allocation = allocate(
        &live_intervals,
        &Settings { num_int_registers: 1, num_float_registers: 0 }
    );

    assert_eq!(1, allocation.num_allocated_registers());
    assert_eq!(1, allocation.num_spilled_registers());

    print_allocation(&compilation_result, &live_intervals, &allocation);
}

#[test]
fn test_allocate2() {
    let mut function = Function::new(
        FunctionDeclaration::new_managed("test".to_owned(), vec![], TypeId::Int32),
        vec![TypeId::Int32, TypeId::Int32],
        vec![
            Instruction::LoadInt32(40000),
            Instruction::StoreLocal(1),

            Instruction::LoadInt32(1337),
            Instruction::LoadInt32(4711),
            Instruction::Add,
            Instruction::StoreLocal(0),

            Instruction::LoadLocal(1),
            Instruction::Return
        ]
    );

    let binder = Binder::new();
    let compilation_result = compile(&binder, &mut function);
    let (_, _, live_intervals) = analyze(&compilation_result);

    let allocation = allocate(
        &live_intervals,
        &Settings { num_int_registers: 1, num_float_registers: 0 }
    );

    assert_eq!(2, allocation.num_allocated_registers());
    assert_eq!(2, allocation.num_spilled_registers());

    print_allocation(&compilation_result, &live_intervals, &allocation);
}

fn load_float(value: i32) -> Instruction {
    Instruction::LoadFloat32(format!("{}.0", value))
}

#[test]
fn test_allocate3() {
    let mut function = int_chain(load_float, TypeId::Float32);

    let binder = Binder::new();
    let compilation_result = compile(&binder, &mut function);
    let (_, _, live_intervals) = analyze(&compilation_result);

    let allocation = allocate(
        &live_intervals,
        &Settings { num_int_registers: 0, num_float_registers: 1 }
    );

    assert_eq!(1, allocation.num_allocated_registers());
    assert_eq!(1, allocation.num_spilled_registers());

    print_allocation(&compilation_result, &live_intervals, &allocation);
}

#[test]
fn test_allocate4() {
    let mut function = Function::new(
        FunctionDeclaration::new_managed("test".to_owned(), vec![], TypeId::Float32),
        vec![TypeId::Float32, TypeId::Float32],
        vec![
            Instruction::LoadFloat32("40000.0".to_owned()),
            Instruction::StoreLocal(1),

            Instruction::LoadFloat32("1337.0".to_owned()),
            Instruction::LoadFloat32("4711.0".to_owned()),
            Instruction::Add,
            Instruction::StoreLocal(0),

            Instruction::LoadLocal(1),
            Instruction::Return
        ]
    );

    let binder = Binder::new();
    let compilation_result = compile(&binder, &mut function);
    let (_, _, live_intervals) = analyze(&compilation_result);

    let allocation = allocate(
        &live_intervals,
        &Settings { num_int_registers: 0, num_float_registers: 1 }
    );

    assert_eq!(2, allocation.num_allocated_registers());
    assert_eq!(2, allocation.num_spilled_registers());

    print_allocation(&compilation_result, &live_intervals, &allocation);
}

#[test]
fn test_allocate5() {
    let mut function = Function::new(
        FunctionDeclaration::new_managed("main".to_owned(), Vec::new(), TypeId::Int32),
        vec![TypeId::Array(Box::new(TypeId::Float32))],
        vec![
            Instruction::LoadInt32(4711),
            Instruction::NewArray(TypeId::Float32),
            Instruction::StoreLocal(0),
            Instruction::LoadLocal(0),
            Instruction::LoadInt32(0),
            Instruction::LoadFloat32("1337.0".to_owned()),
            Instruction::Call(FunctionSignature::new("set_array".to_owned(), vec![TypeId::Array(Box::new(TypeId::Float32)), TypeId::Int32, TypeId::Float32])),
            Instruction::LoadLocal(0),
            Instruction::LoadInt32(0),
            Instruction::LoadElement(TypeId::Float32),
            Instruction::Call(FunctionSignature::new("print".to_owned(), vec![TypeId::Float32])),

            Instruction::LoadInt32(0),
            Instruction::Return,
        ]
    );

    let mut binder = Binder::new();

    binder.define(FunctionDeclaration::new_external(
        "set_array".to_owned(), vec![TypeId::Array(Box::new(TypeId::Float32)), TypeId::Int32, TypeId::Float32], TypeId::Void,
        0
    ));

    binder.define(FunctionDeclaration::new_external(
        "print".to_owned(), vec![TypeId::Float32], TypeId::Void,
        0
    ));

    let compilation_result = compile(&binder, &mut function);
    let (_, _, live_intervals) = analyze(&compilation_result);

    let allocation = allocate(
        &live_intervals,
        &Settings { num_int_registers: 1, num_float_registers: 1 }
    );

    assert_eq!(3, allocation.num_allocated_registers());
    assert_eq!(2, allocation.num_spilled_registers());

    print_allocation(&compilation_result, &live_intervals, &allocation);
}

#[test]
fn test_allocate6() {
    let mut function = Function::new(
        FunctionDeclaration::new_managed("main".to_owned(), Vec::new(), TypeId::Int32),
        vec![],
        vec![
            Instruction::LoadNull(TypeId::Array(Box::new(TypeId::Int32))),
            Instruction::LoadInt32(1000),
            Instruction::LoadElement(TypeId::Int32),
            Instruction::Return
        ]
    );

    let binder = Binder::new();
    let compilation_result = compile(&binder, &mut function);
    let (_, _, live_intervals) = analyze(&compilation_result);

    let allocation = allocate(
        &live_intervals,
        &Settings { num_int_registers: 2, num_float_registers: 2 }
    );

    assert_eq!(2, allocation.num_allocated_registers());
    assert_eq!(0, allocation.num_spilled_registers());

    print_allocation(&compilation_result, &live_intervals, &allocation);
}

#[test]
fn shared_hardware_registers_never_overlap() {
    let intervals = vec![
        interval(0, 4, 0, VirtualRegisterType::Int),
        interval(1, 2, 1, VirtualRegisterType::Int),
        interval(3, 9, 2, VirtualRegisterType::Int),
        interval(5, 6, 3, VirtualRegisterType::Int),
        interval(6, 8, 4, VirtualRegisterType::Float),
        interval(7, 7, 5, VirtualRegisterType::Int),
        interval(8, 12, 6, VirtualRegisterType::Float),
        interval(10, 11, 7, VirtualRegisterType::Int),
    ];
    let settings = Settings { num_int_registers: 2, num_float_registers: 1 };
    let allocation = allocate(&intervals, &settings);
    assert_eq!(intervals.len(), allocation.num_allocated_registers() + allocation.num_spilled_registers());

    let mut placed = Vec::new();
    for x in &intervals {
        let value_type = match x.register.register_type {
            VirtualRegisterType::Int => TypeId::Int32,
            VirtualRegisterType::Float => TypeId::Float32,
        };
        let allocated = allocation.get_register(&RegisterMIR::new(x.register.number, value_type));
        assert_eq!(x, allocated.interval());
        if let Some(hardware) = allocated.hardware_register() {
            match hardware {
                HardwareRegister::Int(n) => assert!((n as usize) < settings.num_int_registers),
                HardwareRegister::Float(n) => assert!((n as usize) < settings.num_float_registers),
                _ => panic!("allocation uses a spill register"),
            }
            placed.push((hardware, *x));
        }
    }
    for (i, (a_register, a)) in placed.iter().enumerate() {
        for (b_register, b) in placed.iter().skip(i + 1) {
            if a_register == b_register {
                assert!(a.end < b.start || b.end < a.start, "{:?} and {:?} share {:?}", a, b, a_register);
            }
        }
    }
}
